//! Exact lookup and suggestion tests against small catalogs.

use method_lib::{
    Classification, CompactMethod, LibraryEntry, MethodLib, QueryResult, Stage,
};

fn entry(bells: u64, title: &str, name: &str, tag: u64, pn: &str) -> LibraryEntry {
    LibraryEntry {
        stage: Stage { num_bells: bells },
        title: title.to_string(),
        method: CompactMethod {
            name: name.to_string(),
            full_class: Classification { tag },
            place_notation: pn.to_string(),
        },
    }
}

fn plain_bob_lib() -> MethodLib {
    MethodLib::new(vec![
        entry(8, "Plain Bob Major", "Plain Bob", 1, "x18x18x18x18,12"),
    ])
    .unwrap()
}

#[test]
fn stored_title_is_found() {
    let lib = plain_bob_lib();
    match lib.get_by_title("Plain Bob Major") {
        QueryResult::Success(m) => {
            assert_eq!(m.title, "Plain Bob Major");
            assert_eq!(m.name, "Plain Bob");
            assert_eq!(m.stage, Stage { num_bells: 8 });
            assert_eq!(m.full_class, Classification { tag: 1 });
            assert_eq!(m.block.symbols.len(), 9);
        },
        _ => panic!("expected Success"),
    }
}

#[test]
fn misspelt_title_is_not_found() {
    let lib = plain_bob_lib();
    match lib.get_by_title("Plain Bob Majer") {
        QueryResult::NotFound(()) => {},
        _ => panic!("expected NotFound"),
    }
}

#[test]
fn misspelt_title_gets_one_suggestion() {
    let lib = plain_bob_lib();
    match lib.get_by_title_with_suggestions("Plain Bob Majer", 1) {
        QueryResult::NotFound(sugs) => {
            assert_eq!(sugs, vec![("Plain Bob Major".to_string(), 1usize)]);
        },
        _ => panic!("expected NotFound with suggestions"),
    }
}

#[test]
fn empty_catalog_lookups_miss() {
    let lib = MethodLib::new(Vec::new()).unwrap();
    match lib.get_by_title("Plain Bob Major") {
        QueryResult::NotFound(()) => {},
        _ => panic!("expected NotFound"),
    }
    match lib.get_by_title("anything at all") {
        QueryResult::NotFound(()) => {},
        _ => panic!("expected NotFound"),
    }
    match lib.get_by_title_with_suggestions("Plain Bob Major", 5) {
        QueryResult::NotFound(sugs) => assert!(sugs.is_empty()),
        _ => panic!("expected NotFound"),
    }
}

#[test]
fn zero_suggestions_requested_yields_empty_list() {
    let lib = plain_bob_lib();
    match lib.get_by_title_with_suggestions("Plain Bob Majer", 0) {
        QueryResult::NotFound(sugs) => assert!(sugs.is_empty()),
        _ => panic!("expected NotFound"),
    }
}

#[test]
fn suggestions_are_sorted_and_capped() {
    let lib = MethodLib::new(vec![
        entry(8, "Plain Bob Major", "Plain Bob", 1, "x18x18x18x18,12"),
        entry(6, "Plain Bob Minor", "Plain Bob", 1, "x16x16x16,12"),
        entry(8, "Little Bob Major", "Little Bob", 2, "x18x14,12"),
    ])
    .unwrap();
    match lib.get_by_title_with_suggestions("Plain Bob Majox", 2) {
        QueryResult::NotFound(sugs) => {
            assert_eq!(sugs.len(), 2);
            assert_eq!(sugs[0].0, "Plain Bob Major");
            assert_eq!(sugs[0].1, 1);
            assert!(sugs[0].1 <= sugs[1].1);
        },
        _ => panic!("expected NotFound"),
    }
}

#[test]
fn fewer_entries_than_requested_suggestions() {
    let lib = plain_bob_lib();
    match lib.get_by_title_with_suggestions("Plain Bob Majer", 10) {
        QueryResult::NotFound(sugs) => {
            assert_eq!(sugs.len(), 1);
            assert_eq!(sugs[0], ("Plain Bob Major".to_string(), 1usize));
        },
        _ => panic!("expected NotFound"),
    }
}

#[test]
fn successful_lookup_bypasses_ranker() {
    let lib = plain_bob_lib();
    match lib.get_by_title_with_suggestions("Plain Bob Major", 3) {
        QueryResult::Success(m) => assert_eq!(m.title, "Plain Bob Major"),
        _ => panic!("expected Success, not suggestions"),
    }
}

#[test]
fn parse_error_bypasses_ranker() {
    let lib = MethodLib::new(vec![
        entry(8, "Broken Major", "Broken", 0, "x19"),
    ])
    .unwrap();
    match lib.get_by_title_with_suggestions("Broken Major", 3) {
        QueryResult::PnParseErr { pn, error: _ } => assert_eq!(pn, "x19"),
        _ => panic!("expected PnParseErr, not suggestions"),
    }
}

#[test]
fn same_title_under_two_stages() {
    let lib = MethodLib::new(vec![
        entry(8, "Plain Bob Major", "Plain Bob", 1, "x18x18x18x18,12"),
        entry(6, "Plain Bob Minor", "Plain Bob", 7, "x16x16x16,12"),
    ])
    .unwrap();
    match lib.get_by_title("Plain Bob Minor") {
        QueryResult::Success(m) => {
            assert_eq!(m.stage, Stage { num_bells: 6 });
            assert_eq!(m.full_class, Classification { tag: 7 });
        },
        _ => panic!("expected Success"),
    }
}

#[test]
fn duplicate_entries_are_rejected() {
    let r = MethodLib::new(vec![
        entry(8, "Plain Bob Major", "Plain Bob", 1, "x18x18x18x18,12"),
        entry(8, "Plain Bob Major", "Other", 2, "x18"),
    ]);
    assert!(r.is_none());
}

#[test]
fn entry_under_wrong_stage_is_rejected() {
    let r = MethodLib::new(vec![
        entry(6, "Plain Bob Major", "Plain Bob", 1, "x16x16x16,12"),
    ]);
    assert!(r.is_none());
    let r2 = MethodLib::new(vec![entry(8, "Nameless", "X", 0, "x18")]);
    assert!(r2.is_none());
}

#[test]
fn stage_resolution_is_case_insensitive() {
    let lib = MethodLib::new(vec![
        entry(8, "PLAIN BOB MAJOR", "Plain Bob", 1, "x18x18x18x18,12"),
    ])
    .unwrap();
    match lib.get_by_title("PLAIN BOB MAJOR") {
        QueryResult::Success(m) => assert_eq!(m.stage, Stage { num_bells: 8 }),
        _ => panic!("expected Success"),
    }
}

#[test]
fn stage_names_resolve() {
    assert_eq!(Stage::from_lower_case_name("major"), Some(Stage { num_bells: 8 }));
    assert_eq!(Stage::from_lower_case_name("minor"), Some(Stage { num_bells: 6 }));
    assert_eq!(Stage::from_lower_case_name("maximus"), Some(Stage { num_bells: 12 }));
    assert_eq!(Stage::from_lower_case_name("Major"), None);
    assert_eq!(Stage::from_lower_case_name("sevenths"), None);
}

#[test]
fn unwrap_returns_the_method() {
    let lib = plain_bob_lib();
    let m = lib.get_by_title("Plain Bob Major").unwrap();
    assert_eq!(m.title, "Plain Bob Major");
}

#[test]
fn unwrap_parse_err_splits_the_variants() {
    let lib = plain_bob_lib();
    match lib.get_by_title("Plain Bob Major").unwrap_parse_err() {
        Ok(m) => assert_eq!(m.title, "Plain Bob Major"),
        Err(()) => panic!("expected Ok"),
    }
    match lib.get_by_title("No Such Major").unwrap_parse_err() {
        Ok(_) => panic!("expected Err"),
        Err(()) => {},
    }
}

#[test]
fn map_not_found_transforms_only_the_payload() {
    let lib = plain_bob_lib();
    match lib.get_by_title("No Such Major").map_not_found(|()| 42u64) {
        QueryResult::NotFound(v) => assert_eq!(v, 42),
        _ => panic!("expected NotFound"),
    }
    match lib.get_by_title("Plain Bob Major").map_not_found(|()| 42u64) {
        QueryResult::Success(m) => assert_eq!(m.title, "Plain Bob Major"),
        _ => panic!("expected Success"),
    }
}
