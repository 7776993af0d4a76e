use binthere::selection::{format_selection, parse_one_based, parse_selection, SelectionError};
use std::collections::BTreeSet;

fn not_a_number(text: &str) -> SelectionError {
    SelectionError::NotANumber { text: text.to_string() }
}

fn out_of_range(value: usize, max: usize) -> SelectionError {
    SelectionError::OutOfRange { value, max }
}

fn invalid_range(item: &str) -> SelectionError {
    SelectionError::InvalidRange { item: item.to_string() }
}

/// The same reading, written with the standard library's own string functions.
fn endpoint_by_std(value: &str, max: usize) -> Result<usize, SelectionError> {
    let parsed = value.parse::<usize>().map_err(|_| not_a_number(value))?;
    if parsed == 0 || parsed > max {
        return Err(out_of_range(parsed, max));
    }
    Ok(parsed)
}

fn selection_by_std(input: &str, max: usize) -> Result<Vec<usize>, SelectionError> {
    let trimmed = input.trim();
    if trimmed.eq_ignore_ascii_case("all") {
        return Ok((0..max).collect());
    }
    if trimmed.eq_ignore_ascii_case("none") {
        return Ok(Vec::new());
    }
    if trimmed.is_empty() {
        return Err(SelectionError::EmptyInput);
    }
    let mut selected = BTreeSet::new();
    for raw_part in trimmed.split(',') {
        let part = raw_part.trim();
        if part.is_empty() {
            return Err(SelectionError::EmptyItem);
        }
        if let Some((start_raw, end_raw)) = part.split_once('-') {
            let start = endpoint_by_std(start_raw.trim(), max)?;
            let end = endpoint_by_std(end_raw.trim(), max)?;
            if start > end {
                return Err(invalid_range(part));
            }
            for idx in start..=end {
                selected.insert(idx - 1);
            }
            continue;
        }
        let idx = endpoint_by_std(part, max)?;
        selected.insert(idx - 1);
    }
    Ok(selected.into_iter().collect())
}

#[test]
fn all_selects_every_index() {
    assert_eq!(parse_selection("all", 0), Ok(vec![]));
    assert_eq!(parse_selection("all", 1), Ok(vec![0]));
    assert_eq!(parse_selection("all", 3), Ok(vec![0, 1, 2]));
    assert_eq!(parse_selection("  ALL ", 2), Ok(vec![0, 1]));
    assert_eq!(parse_selection("aLl", 2), Ok(vec![0, 1]));
    for max in 0..50 {
        assert_eq!(parse_selection("all", max), Ok((0..max).collect::<Vec<usize>>()));
    }
}

#[test]
fn none_selects_nothing() {
    assert_eq!(parse_selection("none", 0), Ok(vec![]));
    assert_eq!(parse_selection("none", 7), Ok(vec![]));
    assert_eq!(parse_selection(" NoNe\t", 7), Ok(vec![]));
    assert_eq!(parse_selection("none", usize::MAX), Ok(vec![]));
}

#[test]
fn words_are_not_items() {
    assert_eq!(parse_selection("all,1", 5), Err(not_a_number("all")));
    assert_eq!(parse_selection("1,none", 5), Err(not_a_number("none")));
    assert_eq!(parse_selection("al l", 5), Err(not_a_number("al l")));
    assert_eq!(parse_selection("ALL\u{212A}", 5), Err(not_a_number("ALL\u{212A}")));
}

#[test]
fn output_is_sorted_and_free_of_duplicates() {
    assert_eq!(parse_selection("3,1,3,2", 5), Ok(vec![0, 1, 2]));
    assert_eq!(parse_selection("4-5,1-2,2-4", 5), Ok(vec![0, 1, 2, 3, 4]));
    assert_eq!(parse_selection("5,4,3,2,1", 5), Ok(vec![0, 1, 2, 3, 4]));
    assert_eq!(parse_selection("2,2,2", 5), Ok(vec![1]));
    assert_eq!(parse_selection("3-5,1", 5), Ok(vec![0, 2, 3, 4]));
}

#[test]
fn ranges_are_inclusive() {
    assert_eq!(parse_selection("2-4", 5), Ok(vec![1, 2, 3]));
    assert_eq!(parse_selection("5-5", 5), Ok(vec![4]));
    assert_eq!(parse_selection("1-5", 5), Ok(vec![0, 1, 2, 3, 4]));
    assert_eq!(parse_selection("5-2", 5), Err(invalid_range("5-2")));
    assert_eq!(parse_selection(" 5 - 2 ", 5), Err(invalid_range("5 - 2")));
}

#[test]
fn boundaries_are_rejected() {
    assert_eq!(parse_selection("0", 5), Err(out_of_range(0, 5)));
    assert_eq!(parse_selection("6", 5), Err(out_of_range(6, 5)));
    assert_eq!(parse_selection("1", 0), Err(out_of_range(1, 0)));
    assert_eq!(parse_selection("5", 5), Ok(vec![4]));
    assert_eq!(parse_selection("1", 5), Ok(vec![0]));
    assert_eq!(parse_selection("", 5), Err(SelectionError::EmptyInput));
    assert_eq!(parse_selection("   ", 5), Err(SelectionError::EmptyInput));
    assert_eq!(parse_selection("1,,2", 5), Err(SelectionError::EmptyItem));
    assert_eq!(parse_selection("1,2,", 5), Err(SelectionError::EmptyItem));
    assert_eq!(parse_selection(",1", 5), Err(SelectionError::EmptyItem));
    assert_eq!(parse_selection("1, ,2", 5), Err(SelectionError::EmptyItem));
    assert_eq!(parse_selection(",", 5), Err(SelectionError::EmptyItem));
}

#[test]
fn the_leftmost_fault_is_reported() {
    assert_eq!(parse_selection("0,x", 5), Err(out_of_range(0, 5)));
    assert_eq!(parse_selection("x,0", 5), Err(not_a_number("x")));
    assert_eq!(parse_selection("1,9,,x", 5), Err(out_of_range(9, 5)));
    assert_eq!(parse_selection("0-x", 5), Err(out_of_range(0, 5)));
    assert_eq!(parse_selection("x-0", 5), Err(not_a_number("x")));
    assert_eq!(parse_selection("3-x", 5), Err(not_a_number("x")));
    assert_eq!(parse_selection("4-2,x", 5), Err(invalid_range("4-2")));
}

#[test]
fn hyphens_split_at_the_first_only() {
    assert_eq!(parse_selection("1-2-3", 5), Err(not_a_number("2-3")));
    assert_eq!(parse_selection("-3", 5), Err(not_a_number("")));
    assert_eq!(parse_selection("3-", 5), Err(not_a_number("")));
    assert_eq!(parse_selection("-", 5), Err(not_a_number("")));
    assert_eq!(parse_selection("1 - 3", 5), Ok(vec![0, 1, 2]));
}

#[test]
fn whitespace_and_signs_are_read_as_the_standard_library_reads_them() {
    assert_eq!(parse_selection(" 1 , 3 ", 5), Ok(vec![0, 2]));
    assert_eq!(parse_selection("\u{3000}2\u{a0}", 5), Ok(vec![1]));
    assert_eq!(parse_selection("+2", 5), Ok(vec![1]));
    assert_eq!(parse_selection("002", 5), Ok(vec![1]));
    assert_eq!(parse_selection("1 2", 5), Err(not_a_number("1 2")));
    assert_eq!(parse_selection("++2", 5), Err(not_a_number("++2")));
    assert_eq!(parse_selection("2.0", 5), Err(not_a_number("2.0")));
    assert_eq!(parse_selection("②", 5), Err(not_a_number("②")));
}

#[test]
fn numbers_beyond_the_machine_are_no_numbers() {
    let too_large = "99999999999999999999999999999999";
    assert_eq!(parse_selection(too_large, 5), Err(not_a_number(too_large)));
    let largest = usize::MAX.to_string();
    assert_eq!(parse_one_based(&largest, usize::MAX), Ok(usize::MAX));
    assert_eq!(parse_one_based(&largest, 5), Err(out_of_range(usize::MAX, 5)));
    let next = format!("{}", usize::MAX as u128 + 1);
    assert_eq!(parse_one_based(&next, usize::MAX), Err(not_a_number(&next)));
}

#[test]
fn one_based_index_agrees_with_the_standard_parser() {
    let samples = [
        "", "+", "-", "0", "1", "+1", "-1", "++1", "007", " 1", "1 ", "1_0", "12a", "٣",
        "18446744073709551615", "18446744073709551616", "99999999999999999999999999",
        "4294967295", "4294967296", "+0", "0x10", "1e3", "９",
    ];
    for text in samples {
        for max in [0usize, 1, 5, 4294967295, usize::MAX] {
            assert_eq!(parse_one_based(text, max), endpoint_by_std(text, max), "input {text:?}");
        }
    }
    for n in 0..2000usize {
        let text = n.to_string();
        assert_eq!(parse_one_based(&text, 1000), endpoint_by_std(&text, 1000));
    }
}

#[test]
fn selections_agree_with_the_standard_library_on_short_inputs() {
    let alphabet = ['0', '1', '2', '3', '9', ',', '-', ' ', '+', 'a', 'l', 'L', 'n', '\t'];
    let mut inputs: Vec<String> = vec![String::new()];
    let mut frontier: Vec<String> = vec![String::new()];
    for _ in 0..4 {
        let mut next = Vec::new();
        for prefix in &frontier {
            for c in alphabet {
                let mut longer = prefix.clone();
                longer.push(c);
                next.push(longer);
            }
        }
        inputs.extend(next.iter().cloned());
        frontier = next;
    }
    for input in &inputs {
        for max in [0usize, 2, 3] {
            assert_eq!(
                parse_selection(input, max),
                selection_by_std(input, max),
                "input {input:?}, max {max}"
            );
        }
    }
}

#[test]
fn selections_agree_with_the_standard_library_on_chosen_inputs() {
    let inputs = [
        "1,3-5", "all", "none", "ALL", "None", " all", "all ", "a ll", "1-3,2-4,10", "10-1",
        "1,2,3,4,5,6,7,8,9,10", "0-3", "3-0", "3-11", "1--2", "1-2-", "١", "1,\u{2003}2",
        "1\u{2003}-\u{2003}2", "\u{feff}1", "1;2", "1,2;", "+1-+2", "-1", "1-", "nonea", "alll",
    ];
    for input in inputs {
        for max in [0usize, 1, 5, 10, 11] {
            assert_eq!(
                parse_selection(input, max),
                selection_by_std(input, max),
                "input {input:?}, max {max}"
            );
        }
    }
}

#[test]
fn reading_the_canonical_text_again_gives_the_same_selection() {
    assert_eq!(format_selection(&vec![0, 1, 2]), "1,2,3");
    assert_eq!(format_selection(&vec![]), "none");
    assert_eq!(format_selection(&vec![9, 99, 100]), "10,100,101");
    for input in ["3,1,3,2", "2-4", "all", "none", "5", "1,5", "4-5,1"] {
        let first = parse_selection(input, 5).unwrap();
        let written = format_selection(&first);
        assert_eq!(parse_selection(&written, 5), Ok(first));
    }
    let all: Vec<usize> = (0..300).collect();
    assert_eq!(parse_selection(&format_selection(&all), 300), Ok(all));
}

#[test]
fn errors_are_put_in_words() {
    assert_eq!(SelectionError::EmptyInput.message(), "enter indices, ranges, `all`, or `none`");
    assert_eq!(SelectionError::EmptyItem.message(), "empty item in list");
    assert_eq!(invalid_range("5-2").message(), "range start must be <= end: `5-2`");
    assert_eq!(not_a_number("x1").message(), "not a valid number: `x1`");
    assert_eq!(out_of_range(6, 5).message(), "index out of range: `6` (valid: 1-5)");
    assert_eq!(out_of_range(0, 0).message(), "index out of range: `0` (valid: 1-0)");
    assert_eq!(
        out_of_range(1234567890, 987654321).message(),
        "index out of range: `1234567890` (valid: 1-987654321)"
    );
    assert_eq!(
        out_of_range(usize::MAX, 10).message(),
        format!("index out of range: `{}` (valid: 1-10)", usize::MAX)
    );
}
