use amiga_sys::harness::{Entry, Mismatch, Table, Verdict};
use amiga_sys::layout::{Field, PackingRules, StructDecl};

fn word(name: &str) -> Field {
    Field::new(name, 2, 2).unwrap()
}

fn long(name: &str) -> Field {
    Field::new(name, 4, 4).unwrap()
}

fn byte(name: &str) -> Field {
    Field::new(name, 1, 1).unwrap()
}

/// Seven words: fourteen bytes under two-byte alignment.
fn clock_data() -> StructDecl {
    StructDecl::new("ClockData")
        .with_field(word("sec"))
        .with_field(word("min"))
        .with_field(word("hour"))
        .with_field(word("mday"))
        .with_field(word("month"))
        .with_field(word("year"))
        .with_field(word("wday"))
}

fn date_stamp() -> StructDecl {
    StructDecl::new("DateStamp")
        .with_field(long("ds_Days"))
        .with_field(long("ds_Minute"))
        .with_field(long("ds_Tick"))
}

fn color_register() -> StructDecl {
    StructDecl::new("ColorRegister")
        .with_field(byte("red"))
        .with_field(byte("green"))
        .with_field(byte("blue"))
        .with_field(byte("pad"))
}

fn three_entries(clock: usize, stamp: usize, color: usize) -> Table {
    Table::from_entries(vec![
        Entry::new(clock_data(), clock),
        Entry::new(date_stamp(), stamp),
        Entry::new(color_register(), color),
    ])
    .unwrap()
}

fn rejected(v: Verdict) -> Vec<Mismatch> {
    match v {
        Verdict::Rejected(found) => found,
        Verdict::Verified => panic!("the table was verified"),
    }
}

#[test]
fn fourteen_bytes_expected_fourteen_passes_silently() {
    let rules = PackingRules::word_aligned();
    assert_eq!(clock_data().size(&rules), Some(14));
    let table = Table::from_entries(vec![Entry::new(clock_data(), 14)]).unwrap();
    let verdict = table.verify(&rules);
    assert!(verdict.is_verified());
    assert!(matches!(verdict, Verdict::Verified));
    assert_eq!(verdict.mismatch_count(), 0);
    assert!(verdict.diagnostics().is_empty());
}

#[test]
fn fourteen_bytes_expected_sixteen_fails_by_name() {
    let rules = PackingRules::word_aligned();
    let table = Table::from_entries(vec![Entry::new(clock_data(), 16)]).unwrap();
    let verdict = table.verify(&rules);
    assert!(!verdict.is_verified());
    let lines = verdict.diagnostics();
    assert_eq!(lines.len(), 1);
    assert!(lines[0].contains("ClockData"));
    assert_eq!(lines[0], "Size of ClockData");
    let found = rejected(verdict);
    assert_eq!(found.len(), 1);
    assert_eq!(found[0].index, 0);
    assert_eq!(found[0].name, "ClockData");
    assert_eq!(found[0].expected, 16);
    assert_eq!(found[0].declared, Some(14));
}

#[test]
fn entry_reports_what_it_holds() {
    let e = Entry::new(clock_data(), 14);
    assert_eq!(e.decl().name(), "ClockData");
    assert_eq!(e.decl().field_count(), 7);
    assert_eq!(e.expected(), 14);
}

#[test]
fn entry_matches_only_the_exact_size() {
    let rules = PackingRules::word_aligned();
    assert!(Entry::new(clock_data(), 14).matches(&rules));
    assert!(!Entry::new(clock_data(), 13).matches(&rules));
    assert!(!Entry::new(clock_data(), 15).matches(&rules));
    assert!(!Entry::new(clock_data(), 16).matches(&rules));
    assert!(!Entry::new(clock_data(), 0).matches(&rules));
}

#[test]
fn empty_table_is_verified() {
    let table = Table::from_entries(Vec::new()).unwrap();
    assert_eq!(table.len(), 0);
    assert!(table.verify(&PackingRules::word_aligned()).is_verified());
}

#[test]
fn table_with_every_entry_right_is_verified() {
    let table = three_entries(14, 12, 4);
    assert_eq!(table.len(), 3);
    assert!(table.verify(&PackingRules::word_aligned()).is_verified());
}

#[test]
fn every_position_of_the_table_is_checked() {
    let rules = PackingRules::word_aligned();
    let first = rejected(three_entries(15, 12, 4).verify(&rules));
    assert_eq!(first.len(), 1);
    assert_eq!(first[0].index, 0);
    assert_eq!(first[0].name, "ClockData");
    let middle = rejected(three_entries(14, 13, 4).verify(&rules));
    assert_eq!(middle.len(), 1);
    assert_eq!(middle[0].index, 1);
    assert_eq!(middle[0].name, "DateStamp");
    let last = rejected(three_entries(14, 12, 5).verify(&rules));
    assert_eq!(last.len(), 1);
    assert_eq!(last[0].index, 2);
    assert_eq!(last[0].name, "ColorRegister");
}

#[test]
fn every_mismatch_is_reported_in_table_order() {
    let rules = PackingRules::word_aligned();
    let verdict = three_entries(16, 12, 8).verify(&rules);
    assert_eq!(verdict.mismatch_count(), 2);
    assert_eq!(verdict.diagnostics(), vec!["Size of ClockData", "Size of ColorRegister"]);
    let found = rejected(verdict);
    assert_eq!(found[0].index, 0);
    assert_eq!(found[0].expected, 16);
    assert_eq!(found[0].declared, Some(14));
    assert_eq!(found[1].index, 2);
    assert_eq!(found[1].expected, 8);
    assert_eq!(found[1].declared, Some(4));
}

#[test]
fn checking_again_gives_the_same_verdict() {
    let rules = PackingRules::word_aligned();
    let good = three_entries(14, 12, 4);
    assert!(good.verify(&rules).is_verified());
    assert!(good.verify(&rules).is_verified());
    let bad = three_entries(14, 10, 4);
    let once = rejected(bad.verify(&rules));
    let twice = rejected(bad.verify(&rules));
    assert_eq!(once.len(), twice.len());
    for (a, b) in once.iter().zip(twice.iter()) {
        assert_eq!(a.index, b.index);
        assert_eq!(a.name, b.name);
        assert_eq!(a.expected, b.expected);
        assert_eq!(a.declared, b.declared);
    }
    assert_eq!(bad.verify(&rules).diagnostics(), bad.verify(&rules).diagnostics());
}

#[test]
fn added_field_fails_that_declaration_only() {
    let rules = PackingRules::word_aligned();
    let table = Table::from_entries(vec![
        Entry::new(clock_data(), 14),
        Entry::new(date_stamp().with_field(long("ds_Extra")), 12),
        Entry::new(color_register(), 4),
    ])
    .unwrap();
    let found = rejected(table.verify(&rules));
    assert_eq!(found.len(), 1);
    assert_eq!(found[0].index, 1);
    assert_eq!(found[0].name, "DateStamp");
    assert_eq!(found[0].expected, 12);
    assert_eq!(found[0].declared, Some(16));
}

#[test]
fn removed_field_fails_that_declaration_only() {
    let rules = PackingRules::word_aligned();
    let shorter = StructDecl::new("DateStamp")
        .with_field(long("ds_Days"))
        .with_field(long("ds_Minute"));
    let table = Table::from_entries(vec![
        Entry::new(clock_data(), 14),
        Entry::new(shorter, 12),
        Entry::new(color_register(), 4),
    ])
    .unwrap();
    let found = rejected(table.verify(&rules));
    assert_eq!(found.len(), 1);
    assert_eq!(found[0].index, 1);
    assert_eq!(found[0].name, "DateStamp");
    assert_eq!(found[0].declared, Some(8));
}

#[test]
fn field_added_in_the_middle_under_byte_packing_fails_that_declaration_only() {
    let rules = PackingRules::byte_packed();
    let wider = StructDecl::new("ColorRegister")
        .with_field(byte("red"))
        .with_field(byte("alpha"))
        .with_field(byte("green"))
        .with_field(byte("blue"))
        .with_field(byte("pad"));
    let table = Table::from_entries(vec![
        Entry::new(clock_data(), 14),
        Entry::new(date_stamp(), 12),
        Entry::new(wider, 4),
    ])
    .unwrap();
    let found = rejected(table.verify(&rules));
    assert_eq!(found.len(), 1);
    assert_eq!(found[0].index, 2);
    assert_eq!(found[0].name, "ColorRegister");
    assert_eq!(found[0].declared, Some(5));
}

#[test]
fn field_added_in_the_middle_under_word_alignment_fails_that_declaration_only() {
    let rules = PackingRules::word_aligned();
    let wider = StructDecl::new("ColorRegister")
        .with_field(byte("red"))
        .with_field(word("alpha"))
        .with_field(byte("green"))
        .with_field(byte("blue"))
        .with_field(byte("pad"));
    let table = Table::from_entries(vec![
        Entry::new(clock_data(), 14),
        Entry::new(wider, 4),
        Entry::new(date_stamp(), 12),
    ])
    .unwrap();
    let found = rejected(table.verify(&rules));
    assert_eq!(found.len(), 1);
    assert_eq!(found[0].index, 1);
    assert_eq!(found[0].name, "ColorRegister");
    assert_eq!(found[0].declared, Some(8));
}

#[test]
fn field_removed_in_the_middle_fails_that_declaration_only() {
    let rules = PackingRules::word_aligned();
    let shorter = StructDecl::new("ClockData")
        .with_field(word("sec"))
        .with_field(word("min"))
        .with_field(word("hour"))
        .with_field(word("month"))
        .with_field(word("year"))
        .with_field(word("wday"));
    let table = Table::from_entries(vec![
        Entry::new(shorter, 14),
        Entry::new(date_stamp(), 12),
        Entry::new(color_register(), 4),
    ])
    .unwrap();
    let found = rejected(table.verify(&rules));
    assert_eq!(found.len(), 1);
    assert_eq!(found[0].index, 0);
    assert_eq!(found[0].name, "ClockData");
    assert_eq!(found[0].declared, Some(12));
}

#[test]
fn field_that_fits_in_padding_goes_unnoticed() {
    let rules = PackingRules::word_aligned();
    let padded = || StructDecl::new("WordByte").with_field(word("word")).with_field(byte("byte"));
    let before = Table::from_entries(vec![Entry::new(padded(), 4)]).unwrap();
    let after =
        Table::from_entries(vec![Entry::new(padded().with_field(byte("extra")), 4)]).unwrap();
    assert!(before.verify(&rules).is_verified());
    assert!(after.verify(&rules).is_verified());
}

#[test]
fn wrong_expectation_fails_like_a_wrong_declaration() {
    let rules = PackingRules::word_aligned();
    let wrong_expectation = rejected(three_entries(14, 16, 4).verify(&rules));
    let wrong_declaration = rejected(
        Table::from_entries(vec![
            Entry::new(clock_data(), 14),
            Entry::new(date_stamp().with_field(long("ds_Extra")), 12),
            Entry::new(color_register(), 4),
        ])
        .unwrap()
        .verify(&rules),
    );
    assert_eq!(wrong_expectation.len(), 1);
    assert_eq!(wrong_declaration.len(), 1);
    assert_eq!(wrong_expectation[0].name, "DateStamp");
    assert_eq!(wrong_declaration[0].name, "DateStamp");
    assert_eq!(wrong_expectation[0].label(), wrong_declaration[0].label());
    assert_eq!(wrong_expectation[0].expected, 16);
    assert_eq!(wrong_expectation[0].declared, Some(12));
    assert_eq!(wrong_declaration[0].expected, 12);
    assert_eq!(wrong_declaration[0].declared, Some(16));
}

#[test]
fn expectation_too_small_and_too_large_both_fail() {
    let rules = PackingRules::word_aligned();
    assert!(!three_entries(14, 12, 3).verify(&rules).is_verified());
    assert!(!three_entries(14, 12, 5).verify(&rules).is_verified());
}

#[test]
fn packing_rules_decide_the_verdict() {
    let mixed = || {
        StructDecl::new("Mixed")
            .with_field(byte("tag"))
            .with_field(long("value"))
    };
    let table = Table::from_entries(vec![Entry::new(mixed(), 6)]).unwrap();
    assert!(table.verify(&PackingRules::word_aligned()).is_verified());
    let packed = rejected(table.verify(&PackingRules::byte_packed()));
    assert_eq!(packed[0].declared, Some(5));
    let natural = rejected(table.verify(&PackingRules::new(4).unwrap()));
    assert_eq!(natural[0].declared, Some(8));
}

#[test]
fn declaration_too_large_to_measure_is_a_mismatch() {
    let huge = StructDecl::new("Huge")
        .with_field(Field::new("most", usize::MAX, 1).unwrap())
        .with_field(byte("more"));
    let table = Table::from_entries(vec![Entry::new(huge, usize::MAX)]).unwrap();
    let found = rejected(table.verify(&PackingRules::byte_packed()));
    assert_eq!(found.len(), 1);
    assert_eq!(found[0].name, "Huge");
    assert_eq!(found[0].expected, usize::MAX);
    assert_eq!(found[0].declared, None);
}

#[test]
fn label_names_the_declaration() {
    let m = Mismatch { index: 3, name: String::from("AChain"), expected: 274, declared: Some(272) };
    assert_eq!(m.label(), "Size of AChain");
    let unnamed = Mismatch { index: 0, name: String::new(), expected: 0, declared: None };
    assert_eq!(unnamed.label(), "Size of ");
}

#[test]
fn diagnostics_follow_the_reports() {
    let verdict = Verdict::Rejected(vec![
        Mismatch { index: 1, name: String::from("BitMap"), expected: 40, declared: Some(38) },
        Mismatch { index: 4, name: String::from("Window"), expected: 136, declared: None },
    ]);
    assert!(!verdict.is_verified());
    assert_eq!(verdict.mismatch_count(), 2);
    assert_eq!(verdict.diagnostics(), vec!["Size of BitMap", "Size of Window"]);
    assert!(Verdict::Verified.diagnostics().is_empty());
    assert_eq!(Verdict::Verified.mismatch_count(), 0);
}

#[test]
fn table_refuses_a_repeated_name() {
    let twice = vec![
        Entry::new(clock_data(), 14),
        Entry::new(date_stamp(), 12),
        Entry::new(clock_data(), 14),
    ];
    assert!(Table::from_entries(twice).is_none());
    let adjacent = vec![Entry::new(date_stamp(), 12), Entry::new(date_stamp(), 16)];
    assert!(Table::from_entries(adjacent).is_none());
}

#[test]
fn table_keeps_entries_in_order() {
    let table = three_entries(14, 12, 4);
    assert_eq!(table.len(), 3);
    assert_eq!(table.entry(0).unwrap().decl().name(), "ClockData");
    assert_eq!(table.entry(1).unwrap().decl().name(), "DateStamp");
    assert_eq!(table.entry(2).unwrap().decl().name(), "ColorRegister");
    assert_eq!(table.entry(2).unwrap().expected(), 4);
    assert!(table.entry(3).is_none());
}

#[test]
fn expected_size_is_found_by_name() {
    let table = three_entries(14, 12, 4);
    assert_eq!(table.expected_size("ClockData"), Some(14));
    assert_eq!(table.expected_size("DateStamp"), Some(12));
    assert_eq!(table.expected_size("ColorRegister"), Some(4));
    assert_eq!(table.expected_size("colorregister"), None);
    assert_eq!(table.expected_size("Window"), None);
    assert_eq!(table.expected_size(""), None);
}
