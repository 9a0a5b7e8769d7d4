use morse::{Code, DecoderSettings, MorseDecoder};

fn standard_settings() -> DecoderSettings {
    DecoderSettings { dit_dah: 300, letter: 500, letter_word: 2000 }
}

#[test]
fn end_to_end_scenario() {
    let settings = standard_settings();
    let mut decoder = MorseDecoder::new(1000);
    // Edges at relative deltas (ms): 50 on, 100 off, 120 on, 350 off,
    // 600 on, 90 off, 2200 on.
    decoder.tick(true, 1050);
    decoder.tick(false, 1150);
    decoder.tick(true, 1270);
    decoder.tick(false, 1620);
    decoder.tick(true, 2220);
    decoder.tick(false, 2310);
    decoder.tick(true, 4510);
    let code = decoder.decode(&settings);
    assert_eq!(code, vec![Code::Dit, Code::Dah, Code::Short, Code::Dit, Code::Long]);
    assert_eq!(Code::display_code_string(code), ".- .\n");
}

#[test]
fn boundary_durations_fall_into_longer_category() {
    let settings = standard_settings();
    let mut decoder = MorseDecoder::new(0);
    decoder.tick(true, 10); // gap of 10: below letter, no token
    decoder.tick(false, 310); // mark of exactly 300: a dah
    decoder.tick(true, 810); // gap of exactly 500: a letter gap
    decoder.tick(false, 910); // mark of 100: a dit
    decoder.tick(true, 2910); // gap of exactly 2000: a word gap
    let code = decoder.decode(&settings);
    assert_eq!(code, vec![Code::Dah, Code::Short, Code::Dit, Code::Long]);
}

#[test]
fn durations_just_below_thresholds_fall_into_shorter_category() {
    let settings = standard_settings();
    let mut decoder = MorseDecoder::new(0);
    decoder.tick(true, 10); // gap of 10: no token
    decoder.tick(false, 309); // mark of 299: a dit
    decoder.tick(true, 808); // gap of 499: no token
    decoder.tick(false, 1108); // mark of 300: a dah
    decoder.tick(true, 3107); // gap of 1999: a letter gap
    let code = decoder.decode(&settings);
    assert_eq!(code, vec![Code::Dit, Code::Dah, Code::Short]);
}

#[test]
fn recorded_transitions_match_deltas_and_levels() {
    let mut decoder = MorseDecoder::new(100);
    decoder.tick(true, 150);
    decoder.tick(false, 375);
    decoder.tick(true, 1375);
    decoder.tick(false, 1475);
    decoder.tick(true, 4000);
    let recs = decoder.transitions();
    assert_eq!(
        recs,
        vec![(50, true), (225, false), (1000, true), (100, false), (2525, true)]
    );
}

#[test]
fn tick_with_unchanged_level_is_a_noop() {
    let settings = standard_settings();
    let mut decoder = MorseDecoder::new(0);
    decoder.tick(true, 40);
    decoder.tick(false, 140);
    let before_code = decoder.decode(&settings);
    let before_recs = decoder.transitions();
    let before_text = decoder.display();
    // The level is still off: nothing may change, however often it is
    // reported and however much time passes.
    decoder.tick(false, 200);
    decoder.tick(false, 5000);
    decoder.tick(false, 100000);
    assert_eq!(decoder.decode(&settings), before_code);
    assert_eq!(decoder.transitions(), before_recs);
    assert_eq!(decoder.display(), before_text);
    // The next change is still measured from the last transition at 140.
    decoder.tick(true, 100140);
    let recs = decoder.transitions();
    assert_eq!(recs.last(), Some(&(100000, true)));
}

#[test]
fn decode_and_display_are_idempotent() {
    let settings = standard_settings();
    let mut decoder = MorseDecoder::new(0);
    decoder.tick(true, 50);
    decoder.tick(false, 400);
    decoder.tick(true, 1000);
    decoder.tick(false, 1100);
    let first_code = decoder.decode(&settings);
    let first_text = decoder.display();
    for _ in 0..5 {
        assert_eq!(decoder.decode(&settings), first_code);
        assert_eq!(decoder.display(), first_text);
    }
}

#[test]
fn reset_empties_the_log() {
    let settings = standard_settings();
    let mut decoder = MorseDecoder::new(0);
    for i in 0..40u64 {
        decoder.tick(i % 2 == 0, 100 * (i + 1));
    }
    assert!(!decoder.decode(&settings).is_empty());
    decoder.reset(5000);
    assert_eq!(decoder.decode(&settings), vec![]);
    assert_eq!(
        decoder.decode(&DecoderSettings { dit_dah: 0, letter: 0, letter_word: 0 }),
        vec![]
    );
    assert_eq!(decoder.transitions(), vec![]);
    assert_eq!(decoder.display(), "Durations (ms)\nMarks Gaps\n----- -----");
    // The reset time is the new reference point.
    decoder.tick(true, 5250);
    assert_eq!(decoder.transitions(), vec![(250, true)]);
}

#[test]
fn overwrite_keeps_the_most_recent_transitions() {
    let mut decoder = MorseDecoder::new(0);
    // 129 alternating transitions, each after a distinct delta of 100 + i.
    let mut time = 0u64;
    let mut expected: Vec<(u64, bool)> = Vec::new();
    for i in 0..129u64 {
        let delta = 100 + i;
        time += delta;
        let level = i % 2 == 0;
        decoder.tick(level, time);
        expected.push((delta, level));
    }
    let recs = decoder.transitions();
    assert_eq!(recs.len(), 128);
    // The first of the 129 transitions is gone; the rest are kept in order.
    assert_eq!(recs, expected[1..].to_vec());
}

#[test]
fn log_holds_at_most_128_transitions() {
    let settings = DecoderSettings { dit_dah: 1, letter: 1, letter_word: 1 };
    let mut decoder = MorseDecoder::new(0);
    for i in 0..500u64 {
        decoder.tick(i % 2 == 0, 10 * (i + 1));
    }
    assert_eq!(decoder.transitions().len(), 128);
    assert_eq!(decoder.decode(&settings).len(), 128);
}

#[test]
fn clock_running_backwards_clamps_to_zero() {
    let mut decoder = MorseDecoder::new(1000);
    decoder.tick(true, 400);
    assert_eq!(decoder.transitions(), vec![(0, true)]);
    // Time resumes from the clamped transition's own timestamp.
    decoder.tick(false, 500);
    assert_eq!(decoder.transitions(), vec![(0, true), (100, false)]);
}

#[test]
fn default_settings() {
    let settings = DecoderSettings::default();
    assert_eq!(settings.dit_dah, 300);
    assert_eq!(settings.letter, 500);
    assert_eq!(settings.letter_word, 2000);
}
