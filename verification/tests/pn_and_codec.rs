//! Place-notation parser tests and codec round trips.

use method_lib::{
    decode, encode, Classification, CompactMethod, LibraryEntry, MethodLib, PnBlock,
    PnBlockParseError, PnSymbol, Stage,
};

fn entry(bells: u64, title: &str, name: &str, tag: u64, pn: &str) -> LibraryEntry {
    LibraryEntry {
        stage: Stage { num_bells: bells },
        title: title.to_string(),
        method: CompactMethod {
            name: name.to_string(),
            full_class: Classification { tag },
            place_notation: pn.to_string(),
        },
    }
}

#[test]
fn plain_bob_notation_parses() {
    let b = PnBlock::parse("x18x18x18x18,12", Stage { num_bells: 8 }).unwrap();
    assert_eq!(
        b.symbols,
        vec![
            PnSymbol::Cross,
            PnSymbol::Places(vec![1, 8]),
            PnSymbol::Cross,
            PnSymbol::Places(vec![1, 8]),
            PnSymbol::Cross,
            PnSymbol::Places(vec![1, 8]),
            PnSymbol::Cross,
            PnSymbol::Places(vec![1, 8]),
            PnSymbol::Places(vec![1, 2]),
        ]
    );
}

#[test]
fn dotted_notation_parses() {
    let b = PnBlock::parse("3.1.5.1.5,125", Stage { num_bells: 5 }).unwrap();
    assert_eq!(b.symbols.len(), 6);
    assert_eq!(b.symbols[0], PnSymbol::Places(vec![3]));
    assert_eq!(b.symbols[5], PnSymbol::Places(vec![1, 2, 5]));
}

#[test]
fn place_beyond_stage_is_rejected() {
    match PnBlock::parse("x19", Stage { num_bells: 8 }) {
        Err(PnBlockParseError::PlaceOutOfStage { index, place }) => {
            assert_eq!(index, 2);
            assert_eq!(place, 9);
        },
        _ => panic!("expected PlaceOutOfStage"),
    }
}

#[test]
fn unknown_character_is_rejected() {
    match PnBlock::parse("x1q8", Stage { num_bells: 8 }) {
        Err(PnBlockParseError::UnrecognisedChar { index, ch }) => {
            assert_eq!(index, 2);
            assert_eq!(ch, 'q');
        },
        _ => panic!("expected UnrecognisedChar"),
    }
}

#[test]
fn empty_notation_is_rejected() {
    assert_eq!(
        PnBlock::parse("", Stage { num_bells: 8 }),
        Err(PnBlockParseError::EmptyBlock)
    );
    assert_eq!(
        PnBlock::parse(".,.", Stage { num_bells: 8 }),
        Err(PnBlockParseError::EmptyBlock)
    );
}

#[test]
fn error_messages_name_the_fault() {
    let e = PnBlockParseError::EmptyBlock;
    assert_eq!(e.message(), "empty place-notation block");
    let e2 = PnBlockParseError::PlaceOutOfStage { index: 2, place: 9 };
    assert!(e2.message().contains("place"));
}

#[test]
fn round_trip_preserves_the_catalog() {
    let entries = vec![
        entry(8, "Plain Bob Major", "Plain Bob", 1, "x18x18x18x18,12"),
        entry(6, "Plain Bob Minor", "Plain Bob", 1, "x16x16x16,12"),
        entry(5, "Grandsire Doubles", "Grandsire", 3, "3.1.5.1.5,125"),
    ];
    let lib = MethodLib::new(entries).unwrap();
    let stream = encode(&lib);
    let back = decode(&stream).expect("decode of an encoded catalog");
    for title in ["Plain Bob Major", "Plain Bob Minor", "Grandsire Doubles"] {
        let before = lib.get_by_title(title).unwrap();
        let after = back.get_by_title(title).unwrap();
        assert_eq!(before.title, after.title);
        assert_eq!(before.name, after.name);
        assert_eq!(before.full_class, after.full_class);
        assert_eq!(before.stage, after.stage);
        assert_eq!(before.block, after.block);
    }
}

#[test]
fn round_trip_of_empty_catalog() {
    let lib = MethodLib::new(Vec::new()).unwrap();
    let stream = encode(&lib);
    assert!(stream.is_empty());
    assert!(decode(&stream).is_some());
}

#[test]
fn decode_rejects_garbage() {
    assert!(decode(&"not a catalog".chars().collect()).is_none());
    assert!(decode(&vec![' ']).is_none());
    assert!(decode(&"99".chars().collect()).is_none());
}

#[test]
fn decode_rejects_truncated_stream() {
    let lib = MethodLib::new(vec![
        entry(8, "Plain Bob Major", "Plain Bob", 1, "x18x18x18x18,12"),
    ])
    .unwrap();
    let mut stream = encode(&lib);
    stream.pop();
    assert!(decode(&stream).is_none());
}
