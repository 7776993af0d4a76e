use binthere::installed::{find_program_match, installed_program_names, InstalledNames};

fn names_of(names: &[&str]) -> InstalledNames {
    let mut set = InstalledNames::new();
    for name in names {
        set.insert(name.to_string());
    }
    set
}

#[test]
fn a_file_stem_that_holds_a_name_matches() {
    let names = names_of(&["photoshop"]);
    assert_eq!(find_program_match("photoshop_setup", &names), Some("photoshop".to_string()));
    assert_eq!(find_program_match("Setup-PhotoShop-v2", &names), Some("photoshop".to_string()));
}

#[test]
fn a_name_that_holds_the_file_stem_matches() {
    let names = names_of(&["adobe photoshop"]);
    assert_eq!(find_program_match("photoshop", &names), Some("adobe photoshop".to_string()));
    assert_eq!(find_program_match("PHOTO", &names), Some("adobe photoshop".to_string()));
    assert_eq!(find_program_match("photoshop_setup", &names), None);
}

#[test]
fn names_of_four_characters_never_match() {
    let names = names_of(&["abcd"]);
    assert_eq!(find_program_match("abc", &names), None);
    assert_eq!(find_program_match("abcd", &names), None);
    assert_eq!(find_program_match("abcd_setup", &names), None);
    assert_eq!(find_program_match("", &names), None);
}

#[test]
fn names_of_five_characters_can_match() {
    let names = names_of(&["abcde"]);
    assert_eq!(find_program_match("abcde", &names), Some("abcde".to_string()));
    assert_eq!(find_program_match("abc", &names), Some("abcde".to_string()));
    assert_eq!(find_program_match("xabcdex", &names), Some("abcde".to_string()));
    assert_eq!(find_program_match("abcdf", &names), None);
}

#[test]
fn length_is_counted_in_characters() {
    let names = names_of(&["ab€d"]);
    assert_eq!(find_program_match("ab€d", &names), None);
    let names = names_of(&["ab€de"]);
    assert_eq!(find_program_match("AB€DE", &names), Some("ab€de".to_string()));
}

#[test]
fn no_names_no_match() {
    assert_eq!(find_program_match("photoshop_setup", &InstalledNames::new()), None);
    assert_eq!(find_program_match("", &InstalledNames::new()), None);
}

#[test]
fn an_empty_stem_occurs_in_every_long_enough_name() {
    assert_eq!(find_program_match("", &names_of(&["abcd", "vlc media player"])),
        Some("vlc media player".to_string()));
}

#[test]
fn only_the_file_stem_is_put_in_lower_case() {
    let names = names_of(&["PhotoShop"]);
    assert_eq!(find_program_match("photoshop", &names), None);
    assert_eq!(find_program_match("PHOTOSHOP", &names), None);
}

#[test]
fn any_of_several_matching_names_may_be_found() {
    let names = names_of(&["mozilla firefox", "firefox", "gimp 2.10"]);
    let found = find_program_match("Firefox Setup 120", &names);
    assert_eq!(found, Some("firefox".to_string()));
    let found = find_program_match("fire", &names).unwrap();
    assert!(found == "mozilla firefox" || found == "firefox");
}

#[test]
fn display_names_are_trimmed_lowered_and_kept_from_four_characters() {
    let raw = vec![
        "  Mozilla Firefox ".to_string(),
        "VLC ".to_string(),
        "GIMP".to_string(),
        "7-Zip 23.01".to_string(),
        "   ".to_string(),
        "".to_string(),
        "gimp".to_string(),
        "\tÉditeur\u{a0}".to_string(),
    ];
    let names = installed_program_names(&raw);
    assert_eq!(names.len(), 4);
    assert!(names.contains("mozilla firefox"));
    assert!(names.contains("gimp"));
    assert!(names.contains("7-zip 23.01"));
    assert!(names.contains("Éditeur"));
    assert!(!names.contains("vlc"));
    assert!(!names.contains("GIMP"));
    assert!(!names.contains(""));
    assert_eq!(names.names(), &vec![
        "mozilla firefox".to_string(),
        "gimp".to_string(),
        "7-zip 23.01".to_string(),
        "Éditeur".to_string(),
    ]);
}

#[test]
fn no_display_names_give_no_installed_names() {
    let names = installed_program_names(&Vec::new());
    assert_eq!(names.len(), 0);
    assert!(names.names().is_empty());
}

#[test]
fn collected_names_of_four_characters_are_stored_but_do_not_match() {
    let names = installed_program_names(&vec!["Zoom".to_string()]);
    assert!(names.contains("zoom"));
    assert_eq!(find_program_match("zoom_installer", &names), None);
}

#[test]
fn a_set_holds_each_name_once() {
    let mut names = InstalledNames::new();
    assert!(names.insert("firefox".to_string()));
    assert!(!names.insert("firefox".to_string()));
    assert!(names.insert("Firefox".to_string()));
    assert_eq!(names.len(), 2);
    assert!(names.contains("firefox"));
    assert!(!names.contains("fire"));
}
