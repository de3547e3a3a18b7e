use pliny::shell::shell_split;

#[test]
fn tokenize_simple() {
    assert_eq!(shell_split("plan -refresh=false"), vec!["plan", "-refresh=false"]);
}

#[test]
fn tokenize_quoted() {
    assert_eq!(
        shell_split(r#"apply -var="foo=bar baz""#),
        vec!["apply", "-var=foo=bar baz"]
    );
}

#[test]
fn tokenize_empty() {
    assert!(shell_split("   ").is_empty());
}

#[test]
fn quotes_nest_and_end() {
    assert_eq!(shell_split(r#"a 'b "c" d' e"#), vec!["a", "b \"c\" d", "e"]);
    assert_eq!(shell_split(r#""it's""#), vec!["it's"]);
    assert_eq!(shell_split("'open word"), vec!["open word"]);
    assert_eq!(shell_split("x''y"), vec!["xy"]);
}

#[test]
fn empty_quotations_are_no_words() {
    assert!(shell_split("'' \"\"").is_empty());
    assert!(shell_split("").is_empty());
}

#[test]
fn a_backslash_takes_the_next_character() {
    assert_eq!(shell_split(r"a\ b"), vec!["a b"]);
    assert_eq!(shell_split(r#"\"a\""#), vec!["\"a\""]);
    assert_eq!(shell_split(r#"'a\'b'"#), vec!["a'b"]);
    assert_eq!(shell_split("a\\"), vec!["a"]);
}

#[test]
fn any_white_space_separates() {
    assert_eq!(shell_split("a\tb\u{a0}c\u{3000}d\n"), vec!["a", "b", "c", "d"]);
}

#[test]
fn joined_words_split_again() {
    let words = vec!["plan", "-target=module.foo.bar", "x"];
    assert_eq!(shell_split(&words.join(" ")), words);
}

#[test]
fn a_quotation_is_a_word_of_its_own() {
    assert_eq!(shell_split("'a b  c'"), vec!["a b  c"]);
}
