use grs_wasm::{
    all_rules, byte_range_to_char_range, join_syllables, load_config, pascal_to_snake, scan_text,
    to_fixjs, Diagnostic, DiagnosticJs, Fix, Rule,
};

#[test]
fn test_range_conversion() {
    assert_eq!(0..4, byte_range_to_char_range("Καλημέρα", 0..8));
}

#[test]
fn lib_test_range_conversion() {
    assert_eq!(0..4, byte_range_to_char_range("Καλημέρα", 0..8));
}

#[test]
fn range_over_mixed_widths() {
    // a: 1 byte, έ: 2, €: 3, 😀: 4, b: 1
    let t = "aέ€😀b";
    assert_eq!(1..4, byte_range_to_char_range(t, 1..10));
    assert_eq!(0..1, byte_range_to_char_range(t, 0..1));
    assert_eq!(2..3, byte_range_to_char_range(t, 3..6));
    assert_eq!(3..3, byte_range_to_char_range(t, 6..6));
}

#[test]
fn range_end_of_text_resolves_to_char_count() {
    assert_eq!(0..4, byte_range_to_char_range("καλη", 0..8));
    assert_eq!(2..5, byte_range_to_char_range("aέ€😀b", 3..11));
    assert_eq!(4..8, byte_range_to_char_range("Καλημέρα", 8..16));
}

#[test]
fn range_degrades_when_start_is_not_a_boundary() {
    assert_eq!(0..0, byte_range_to_char_range("Καλημέρα", 1..4));
    assert_eq!(0..0, byte_range_to_char_range("Καλημέρα", 3..100));
}

#[test]
fn range_degrades_when_start_follows_end() {
    assert_eq!(0..0, byte_range_to_char_range("Καλημέρα", 4..2));
}

#[test]
fn range_degrades_when_start_is_end_of_text() {
    assert_eq!(0..0, byte_range_to_char_range("Καλημέρα", 16..16));
    assert_eq!(0..0, byte_range_to_char_range("", 0..0));
}

#[test]
fn range_end_off_boundary_runs_to_end_of_text() {
    assert_eq!(0..8, byte_range_to_char_range("Καλημέρα", 0..3));
}

fn default_list() -> Vec<Rule> {
    vec![
        Rule::MissingDoubleAccents,
        Rule::MissingAccentCapital,
        Rule::DuplicatedWord,
        Rule::AddFinalN,
        Rule::RemoveFinalN,
        Rule::OutdatedSpelling,
        Rule::MonosyllableAccented,
        Rule::MultisyllableNotAccented,
        Rule::MixedScripts,
        Rule::AmbiguousChar,
    ]
}

#[test]
fn absent_options_select_every_rule() {
    assert_eq!(default_list(), load_config(None));
    assert_eq!(default_list(), all_rules());
}

#[test]
fn absent_options_independent_of_prior_calls() {
    let _ = load_config(Some(vec![(Some(Rule::AddFinalN), true)]));
    assert_eq!(default_list(), load_config(None));
    assert_eq!(default_list(), load_config(None));
}

#[test]
fn unknown_code_is_dropped() {
    let options = vec![(Some(Rule::MissingDoubleAccents), true), (None, true)];
    assert_eq!(vec![Rule::MissingDoubleAccents], load_config(Some(options)));
}

#[test]
fn disabled_and_repeated_rules() {
    let options = vec![
        (Some(Rule::AddFinalN), false),
        (Some(Rule::MixedScripts), true),
        (Some(Rule::DuplicatedWord), true),
        (Some(Rule::MixedScripts), true),
        (None, false),
    ];
    assert_eq!(
        vec![Rule::MixedScripts, Rule::DuplicatedWord],
        load_config(Some(options))
    );
}

#[test]
fn malformed_options_select_nothing() {
    assert_eq!(Vec::<Rule>::new(), load_config(Some(vec![])));
}

#[test]
fn kind_conversion() {
    assert_eq!("missing_double_accents", pascal_to_snake("MissingDoubleAccents"));
    assert_eq!("add_final_n", pascal_to_snake("AddFinalN"));
    assert_eq!("", pascal_to_snake(""));
}

#[test]
fn kind_conversion_splits_every_capital() {
    assert_eq!("a_b_c", pascal_to_snake("ABC"));
    assert_eq!("x_y_z_word", pascal_to_snake("XYZWord"));
}

#[test]
fn kind_conversion_of_every_rule() {
    let names: Vec<String> = default_list()
        .iter()
        .map(|r| pascal_to_snake(r.name()))
        .collect();
    assert_eq!(
        vec![
            "missing_double_accents",
            "missing_accent_capital",
            "duplicated_word",
            "add_final_n",
            "remove_final_n",
            "outdated_spelling",
            "monosyllable_accented",
            "multisyllable_not_accented",
            "mixed_scripts",
            "ambiguous_char",
        ],
        names
    );
}

#[test]
fn fix_text_is_trimmed() {
    let fix = Some(Fix { range: 0..4, replacement: "  καλή \n".to_string() });
    assert_eq!(Some("καλή".to_string()), to_fixjs(&fix));
    assert_eq!(None, to_fixjs(&None));
}

fn sample() -> Vec<Diagnostic> {
    vec![
        Diagnostic {
            kind: Rule::MissingDoubleAccents,
            range: 0..16,
            fix: Some(Fix { range: 0..16, replacement: " Καλημέρα ".to_string() }),
        },
        Diagnostic { kind: Rule::AddFinalN, range: 17..23, fix: None },
        Diagnostic { kind: Rule::DuplicatedWord, range: 3..5, fix: None },
    ]
}

#[test]
fn encode_one_diagnostic() {
    let text = "Καλημέρα την";
    let d = &sample()[0];
    let r = DiagnosticJs::new(text, d);
    assert_eq!(
        DiagnosticJs {
            kind: "missing_double_accents".to_string(),
            range: 0..8,
            fix: Some("Καλημέρα".to_string()),
        },
        r
    );
}

#[test]
fn scan_keeps_number_and_order() {
    let text = "Καλημέρα την";
    let ds = sample();
    let out = scan_text(text, &ds);
    assert_eq!(ds.len(), out.len());
    assert_eq!("missing_double_accents", out[0].kind);
    assert_eq!(0..8, out[0].range);
    assert_eq!("add_final_n", out[1].kind);
    assert_eq!(9..12, out[1].range);
    assert_eq!(None, out[1].fix);
    assert_eq!("duplicated_word", out[2].kind);
    assert_eq!(0..0, out[2].range);
}

#[test]
fn scan_twice_gives_same_output() {
    let text = "Καλημέρα την";
    let ds = sample();
    assert_eq!(scan_text(text, &ds), scan_text(text, &ds));
}

#[test]
fn scan_of_nothing_is_empty() {
    assert!(scan_text("Καλημέρα", &vec![]).is_empty());
}

#[test]
fn syllables_are_joined() {
    let parts: Vec<String> = vec!["κα", "λη", "μέ", "ρα"].into_iter().map(String::from).collect();
    assert_eq!("κα-λη-μέ-ρα", join_syllables(&parts, "-"));
    assert_eq!("καλημέρα", join_syllables(&parts, ""));
    assert_eq!("", join_syllables(&vec![], "-"));
    assert_eq!("μία", join_syllables(&vec!["μία".to_string()], "-"));
}
