use dvorak_words::loader::parse_words;

fn words(toks: Vec<Vec<u8>>) -> Vec<String> {
    toks.into_iter()
        .map(|t| String::from_utf8(t).unwrap())
        .collect()
}

#[test]
fn splits_on_newlines_only() {
    let toks = parse_words(b"cab\njax\ndab");
    assert_eq!(words(toks), vec!["cab", "jax", "dab"]);
}

#[test]
fn trims_trailing_carriage_returns_and_spaces() {
    let toks = parse_words(b"cab\r\njax \nrat\t\r\n");
    assert_eq!(words(toks), vec!["cab", "jax", "rat"]);
}

#[test]
fn blank_lines_yield_no_token() {
    let toks = parse_words(b"\ncab\n\n\njax\n");
    assert_eq!(words(toks), vec!["cab", "jax"]);
}

#[test]
fn empty_input_yields_no_token() {
    assert!(parse_words(b"").is_empty());
    assert!(parse_words(b"\r\n").is_empty());
}

#[test]
fn last_line_without_newline_is_a_token() {
    let toks = parse_words(b"cab\njax");
    assert_eq!(words(toks), vec!["cab", "jax"]);
}

#[test]
fn inner_spaces_are_kept() {
    let toks = parse_words(b"two words\n");
    assert_eq!(words(toks), vec!["two words"]);
}
