use simplicio::assemble::{assemble, assemble_spaced};

#[test]
fn assemble_empty_is_empty_string() {
    let parts: Vec<String> = vec![];
    assert_eq!(assemble(&parts), String::new());
    assert_eq!(assemble_spaced(&parts), String::new());
}

#[test]
fn assemble_concatenates() {
    let parts = vec!["Yel".to_string(), "low".to_string(), "!".to_string()];
    assert_eq!(assemble(&parts), "Yellow!".to_string());
}

#[test]
fn assemble_single_part_has_no_separator() {
    let parts = vec!["alone".to_string()];
    assert_eq!(assemble(&parts), "alone".to_string());
    assert_eq!(assemble_spaced(&parts), "alone".to_string());
}

#[test]
fn assemble_spaced_inserts_single_spaces() {
    let parts = vec![
        "This".to_string(),
        "is number".to_string(),
        1.to_string(),
        "value".to_string(),
        "macro:".to_string(),
        true.to_string(),
    ];
    assert_eq!(
        assemble_spaced(&parts),
        "This is number 1 value macro: true".to_string()
    );
}
