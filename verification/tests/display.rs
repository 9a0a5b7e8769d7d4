use morse::render::{render_durations, render_table};
use morse::{Code, MorseDecoder};

const HEADER: &str = "Durations (ms)\nMarks Gaps\n----- -----";

#[test]
fn code_string_maps_each_token_to_one_character() {
    let codes = vec![Code::Dit, Code::Dah, Code::Short, Code::Long, Code::Dit];
    assert_eq!(Code::display_code_string(codes), ".- \n.");
    assert_eq!(Code::display_code_string(vec![]), "");
}

#[test]
fn empty_log_renders_header_only() {
    let decoder = MorseDecoder::new(0);
    assert_eq!(decoder.display(), HEADER);
}

#[test]
fn display_ranks_each_column_descending() {
    let mut decoder = MorseDecoder::new(0);
    decoder.tick(true, 30); // gap of 30
    decoder.tick(false, 130); // mark of 100
    decoder.tick(true, 380); // gap of 250
    decoder.tick(false, 40380); // mark of 40000
    let expected = format!("{HEADER}\n40000 00250\n00100 00030");
    assert_eq!(decoder.display(), expected);
}

#[test]
fn display_pads_excess_gap_rows() {
    let mut decoder = MorseDecoder::new(0);
    decoder.tick(true, 70); // gap of 70
    decoder.tick(false, 80); // mark of 10
    decoder.tick(true, 130); // gap of 50
    let expected = format!("{HEADER}\n00010 00070\n      00050");
    assert_eq!(decoder.display(), expected);
}

#[test]
fn table_pads_excess_mark_rows() {
    let marks = vec![100, 900];
    let gaps = vec![80];
    let expected = format!("{HEADER}\n00900 00080\n00100");
    assert_eq!(render_durations(&marks, &gaps), expected);
}

#[test]
fn table_keeps_all_digits_of_large_durations() {
    let marks = vec![123456];
    let gaps = vec![7];
    let expected = format!("{HEADER}\n123456 00007");
    assert_eq!(render_durations(&marks, &gaps), expected);
}

#[test]
fn table_of_sorted_columns_is_rendered_as_given() {
    let marks = vec![500, 20, 3];
    let gaps = vec![90000, 600];
    let expected = format!("{HEADER}\n00500 90000\n00020 00600\n00003");
    assert_eq!(render_table(&marks, &gaps), expected);
}

#[test]
fn equal_durations_are_all_listed() {
    let mut decoder = MorseDecoder::new(0);
    decoder.tick(true, 40); // gap of 40
    decoder.tick(false, 140); // mark of 100
    decoder.tick(true, 180); // gap of 40
    decoder.tick(false, 280); // mark of 100
    let expected = format!("{HEADER}\n00100 00040\n00100 00040");
    assert_eq!(decoder.display(), expected);
}
