use predict::index::{BuildError, DictionaryIndex, QueryError, SymbolIndex, MAX_CANDIDATES};

fn words(list: &[&str]) -> Vec<String> {
    list.iter().map(|w| w.to_string()).collect()
}

fn record_list(list: &[(&str, &str)]) -> Vec<(String, String)> {
    list.iter().map(|(k, v)| (k.to_string(), v.to_string())).collect()
}

#[test]
fn dictionary_prefix_lookup() {
    let dict = DictionaryIndex::build(&words(&["car", "case", "cat", "dog"])).unwrap();
    assert_eq!(dict.lookup_words("ca").unwrap(), words(&["car", "case", "cat"]));
    assert_eq!(dict.lookup_words("cat").unwrap(), words(&["cat"]));
    assert_eq!(dict.lookup_words("d").unwrap(), words(&["dog"]));
    assert_eq!(dict.lookup_words("x").unwrap(), Vec::<String>::new());
}

#[test]
fn empty_prefix_returns_every_key_in_order() {
    let dict = DictionaryIndex::build(&words(&["ant", "bee", "cow"])).unwrap();
    assert_eq!(dict.lookup_words("").unwrap(), words(&["ant", "bee", "cow"]));
}

#[test]
fn lookup_is_capped() {
    let mut many: Vec<String> = Vec::new();
    for i in 0..40 {
        many.push(format!("w{:02}", i));
    }
    let dict = DictionaryIndex::build(&many).unwrap();
    let found = dict.lookup_words("w").unwrap();
    assert_eq!(found.len(), MAX_CANDIDATES);
    assert_eq!(found, many[..MAX_CANDIDATES].to_vec());
}

#[test]
fn out_of_order_build_fails() {
    assert_eq!(
        DictionaryIndex::build(&words(&["cat", "car"])).err(),
        Some(BuildError::OutOfOrderKey)
    );
}

#[test]
fn duplicate_key_build_fails() {
    assert_eq!(
        DictionaryIndex::build(&words(&["car", "car", "cat"])).err(),
        Some(BuildError::DuplicateKey)
    );
}

#[test]
fn symbol_lookup_round_trips_texts() {
    let recs = record_list(&[
        ("smile", "\u{1F604}"),
        ("smirk", "\u{1F60F}"),
        ("star", "\u{2B50}"),
    ]);
    let ix = SymbolIndex::build(&recs).unwrap();
    let found = ix.lookup_symbols("smi").unwrap();
    assert_eq!(
        found,
        record_list(&[("smile", "\u{1F604}"), ("smirk", "\u{1F60F}")])
    );
    let all = ix.lookup_symbols("").unwrap();
    assert_eq!(all, recs);
}

#[test]
fn symbol_build_rejects_unsorted_or_duplicate() {
    assert_eq!(
        SymbolIndex::build(&record_list(&[("b", "x"), ("a", "y")])).err(),
        Some(BuildError::OutOfOrderKey)
    );
    assert_eq!(
        SymbolIndex::build(&record_list(&[("a", "x"), ("a", "y")])).err(),
        Some(BuildError::DuplicateKey)
    );
}

#[test]
fn dictionary_artifact_round_trip() {
    let dict = DictionaryIndex::build(&words(&["left", "right"])).unwrap();
    let bytes = dict.to_bytes();
    let loaded = DictionaryIndex::from_bytes(bytes).unwrap();
    assert_eq!(loaded.lookup_words("l").unwrap(), words(&["left"]));
    assert_eq!(loaded.lookup_words("").unwrap(), words(&["left", "right"]));
}

#[test]
fn corrupt_dictionary_artifact_is_rejected() {
    assert!(DictionaryIndex::from_bytes(vec![1, 2, 3, 4]).is_err());
}

#[test]
fn symbol_artifact_round_trip() {
    let recs = record_list(&[("eq", "\u{1F522}"), ("eqq", "\u{2754}")]);
    let ix = SymbolIndex::build(&recs).unwrap();
    let (map_bytes, payload_bytes) = ix.to_bytes().unwrap();
    let loaded = SymbolIndex::from_bytes(map_bytes, payload_bytes).unwrap();
    assert_eq!(loaded.lookup_symbols("eq").unwrap(), recs);
}

#[test]
fn corrupt_symbol_artifact_is_rejected() {
    let recs = record_list(&[("eq", "\u{1F522}")]);
    let ix = SymbolIndex::build(&recs).unwrap();
    let (map_bytes, payload_bytes) = ix.to_bytes().unwrap();
    assert!(SymbolIndex::from_bytes(vec![0, 1, 2], payload_bytes.clone()).is_err());
    assert!(SymbolIndex::from_bytes(map_bytes, vec![255]).is_err());
}

#[test]
fn non_utf8_keys_are_rejected_per_call() {
    // a structurally valid artifact whose key is not UTF-8: loading succeeds,
    // but each query on it is rejected
    let mut b = fst::SetBuilder::memory();
    b.insert([0xFFu8, 0xFE]).unwrap();
    let set = b.into_set();
    let bytes = set.as_fst().as_bytes().to_vec();
    let loaded = DictionaryIndex::from_bytes(bytes).unwrap();
    assert_eq!(loaded.lookup_words("").err(), Some(QueryError::InvalidKeyText));
}
