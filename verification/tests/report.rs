use binthere::models::{InstallerFile, ScanSummary};
use binthere::report::{
    format_optional_timestamp, largest_files, largest_positions, TIMESTAMP_LIMIT,
};

fn scan_of_sizes(sizes: &[u64]) -> ScanSummary {
    ScanSummary {
        root: "/downloads".to_string(),
        scanned_at_unix_secs: 0,
        include_archives: false,
        files: sizes
            .iter()
            .enumerate()
            .map(|(i, size)| InstallerFile {
                path: format!("/downloads/{i}.exe"),
                extension: "exe".to_string(),
                size_bytes: *size,
                modified_unix_secs: None,
                installed_program_match: None,
            })
            .collect(),
        warnings: Vec::new(),
    }
}

#[test]
fn the_largest_files_come_first() {
    let scan = scan_of_sizes(&[5, 900, 20, 7, 900, 1, 64]);
    assert_eq!(largest_positions(&scan, 5), vec![1, 4, 6, 2, 3]);
    assert_eq!(largest_positions(&scan, 0), Vec::<usize>::new());
    assert_eq!(largest_positions(&scan, 1), vec![1]);
    assert_eq!(largest_positions(&scan, 7), vec![1, 4, 6, 2, 3, 0, 5]);
    assert_eq!(largest_positions(&scan, 100), vec![1, 4, 6, 2, 3, 0, 5]);
    assert_eq!(largest_positions(&scan_of_sizes(&[]), 5), Vec::<usize>::new());
}

#[test]
fn files_of_one_size_keep_their_order() {
    let scan = scan_of_sizes(&[3, 3, 3, 3]);
    assert_eq!(largest_positions(&scan, 3), vec![0, 1, 2]);
    let paths: Vec<&str> = largest_files(&scan, 2).iter().map(|f| f.path.as_str()).collect();
    assert_eq!(paths, vec!["/downloads/0.exe", "/downloads/1.exe"]);
}

#[test]
fn the_largest_files_are_what_a_stable_sort_gives() {
    let mut seed: u64 = 12345;
    for round in 0..200 {
        let len = round % 9;
        let mut sizes = Vec::new();
        for _ in 0..len {
            seed = seed.wrapping_mul(6364136223846793005).wrapping_add(1442695040888963407);
            sizes.push((seed >> 33) % 4);
        }
        let scan = scan_of_sizes(&sizes);
        for max in 0..10 {
            let mut expected: Vec<&InstallerFile> = scan.files.iter().collect();
            expected.sort_by_key(|f| std::cmp::Reverse(f.size_bytes));
            expected.truncate(max);
            assert_eq!(largest_files(&scan, max), expected);
        }
    }
}

#[test]
fn a_known_time_is_written_in_rfc_3339() {
    assert_eq!(format_optional_timestamp(Some(0)), "1970-01-01T00:00:00Z");
    assert_eq!(format_optional_timestamp(Some(1_518_568_087)), "2018-02-14T00:28:07Z");
    assert_eq!(format_optional_timestamp(Some(951_782_400)), "2000-02-29T00:00:00Z");
    assert_eq!(format_optional_timestamp(Some(TIMESTAMP_LIMIT - 1)), "9999-12-31T23:59:59Z");
}

#[test]
fn an_unknown_time_is_said_to_be_unknown() {
    assert_eq!(format_optional_timestamp(None), "unknown-modified-time");
}
