use simplicio::builder::{build, Arg, BuildError, Separator};
use simplicio::container::Container;
use simplicio::helpers::{mapper, normalize};

#[test]
fn empty_build_yields_empty_container() {
    let c: Container<String, String> = build(vec![]).unwrap();
    assert_eq!(c.len(), 0);
    assert_eq!(c.get(&"anything".to_string()), None);
}

#[test]
fn separator_forms_agree_with_normalize() {
    let arrows = build(vec![
        Arg::Separated("k1".to_string(), "v1".to_string(), Separator::Arrow),
        Arg::Separated("k2".to_string(), "v2".to_string(), Separator::Arrow),
    ])
    .unwrap();
    let colons = build(vec![
        Arg::Separated("k1".to_string(), "v1".to_string(), Separator::Colon),
        Arg::Separated("k2".to_string(), "v2".to_string(), Separator::Colon),
    ])
    .unwrap();
    let bulk = normalize(vec![
        ("k1".to_string(), "v1".to_string()),
        ("k2".to_string(), "v2".to_string()),
    ]);
    for c in [&arrows, &colons, &bulk] {
        assert_eq!(c.len(), 2);
        assert_eq!(c.get(&"k1".to_string()), Some(&"v1".to_string()));
        assert_eq!(c.get(&"k2".to_string()), Some(&"v2".to_string()));
    }
}

#[test]
fn bracket_form_agrees_with_separator_form() {
    let bracketed = build(vec![
        Arg::Bracketed("k1".to_string(), "v1".to_string()),
        Arg::Bracketed("k2".to_string(), "v2".to_string()),
    ])
    .unwrap();
    let separated = build(vec![
        Arg::Separated("k1".to_string(), "v1".to_string(), Separator::FatArrow),
        Arg::Separated("k2".to_string(), "v2".to_string(), Separator::Juxtaposed),
    ])
    .unwrap();
    for c in [&bracketed, &separated] {
        assert_eq!(c.len(), 2);
        assert_eq!(c.get(&"k1".to_string()), Some(&"v1".to_string()));
        assert_eq!(c.get(&"k2".to_string()), Some(&"v2".to_string()));
    }
}

#[test]
fn all_separator_variants_build_alike() {
    let variants = [
        Separator::Juxtaposed,
        Separator::Colon,
        Separator::Arrow,
        Separator::FatArrow,
    ];
    for sep in variants {
        let c = build(vec![
            Arg::Separated("a".to_string(), 1u64, sep),
            Arg::Separated("b".to_string(), 2u64, sep),
        ])
        .unwrap();
        assert_eq!(c.len(), 2);
        assert_eq!(c.get(&"a".to_string()), Some(&1));
        assert_eq!(c.get(&"b".to_string()), Some(&2));
    }
}

#[test]
fn duplicate_key_later_wins() {
    let c = build(vec![
        Arg::Separated("k1".to_string(), "a".to_string(), Separator::Arrow),
        Arg::Separated("k1".to_string(), "b".to_string(), Separator::Arrow),
    ])
    .unwrap();
    assert_eq!(c.len(), 1);
    assert_eq!(c.get(&"k1".to_string()), Some(&"b".to_string()));
}

#[test]
fn bulk_sources_merge_with_second_winning() {
    let first = vec![("x".to_string(), 1i64), ("y".to_string(), 10i64)];
    let second = vec![("x".to_string(), 2i64)];
    let c = build(vec![Arg::Bulk(first), Arg::Bulk(second)]).unwrap();
    assert_eq!(c.len(), 2);
    assert_eq!(c.get(&"x".to_string()), Some(&2));
    assert_eq!(c.get(&"y".to_string()), Some(&10));
}

#[test]
fn mixed_shapes_are_rejected() {
    let r = build(vec![
        Arg::Separated("k1".to_string(), "v1".to_string(), Separator::Colon),
        Arg::Bulk(vec![("k2".to_string(), "v2".to_string())]),
    ]);
    match r {
        Err(e) => assert_eq!(e, BuildError::ShapeMismatch),
        Ok(_) => panic!("a mixed-shape argument list must be rejected"),
    }
}

#[test]
fn mapper_collects_pairs() {
    let pairs = vec![("key1", "value1"), ("key2", "value2")];
    let hashmap = mapper(pairs);
    assert_eq!(hashmap.get(&"key1"), Some(&"value1"));
    assert_eq!(hashmap.get(&"key2"), Some(&"value2"));
}

#[test]
fn normalize_duplicates_last_wins() {
    let c = normalize(vec![("k".to_string(), 1u32), ("k".to_string(), 2u32)]);
    assert_eq!(c.len(), 1);
    assert_eq!(c.get(&"k".to_string()), Some(&2));
}

#[test]
fn renormalizing_entries_changes_nothing() {
    let c = normalize(vec![
        ("a".to_string(), 1u32),
        ("b".to_string(), 2u32),
        ("a".to_string(), 3u32),
    ]);
    let again = normalize(c.entries());
    assert_eq!(again.len(), 2);
    assert_eq!(again.get(&"a".to_string()), Some(&3));
    assert_eq!(again.get(&"b".to_string()), Some(&2));
}

#[test]
fn insert_overwrites_and_len_counts_keys() {
    let mut c: Container<String, u32> = Container::new();
    c.insert("a".to_string(), 1);
    c.insert("b".to_string(), 2);
    c.insert("a".to_string(), 3);
    assert_eq!(c.len(), 2);
    assert_eq!(c.get(&"a".to_string()), Some(&3));
    assert_eq!(c.get(&"b".to_string()), Some(&2));
}

#[test]
fn absorb_layers_later_container_over_earlier() {
    let mut c = normalize(vec![("a".to_string(), 1u32), ("b".to_string(), 2u32)]);
    let d = normalize(vec![("b".to_string(), 9u32), ("c".to_string(), 3u32)]);
    c.absorb(d);
    assert_eq!(c.len(), 3);
    assert_eq!(c.get(&"a".to_string()), Some(&1));
    assert_eq!(c.get(&"b".to_string()), Some(&9));
    assert_eq!(c.get(&"c".to_string()), Some(&3));
}

#[test]
fn get_missing_key_returns_none() {
    let c = normalize(vec![("here".to_string(), 1u32)]);
    assert_eq!(c.get(&"gone".to_string()), None);
}

#[test]
fn empty_bulk_sources_yield_empty() {
    let c: Container<String, u32> =
        build(vec![Arg::Bulk(vec![]), Arg::Bulk(vec![])]).unwrap();
    assert_eq!(c.len(), 0);
}
