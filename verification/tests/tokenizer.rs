use agent_config::shell::{segments, Token};
use agent_config::text::{is_alnum, is_space, same_text};

fn words(command: &str) -> Vec<Vec<(String, bool)>> {
    segments(command)
        .into_iter()
        .map(|seg| seg.into_iter().map(|t: Token| (t.text, t.quoted)).collect())
        .collect()
}

fn w(text: &str, quoted: bool) -> (String, bool) {
    (text.to_string(), quoted)
}

#[test]
fn splits_words_at_whitespace() {
    assert_eq!(
        words("rg  -rn\tfoo "),
        vec![vec![w("rg", false), w("-rn", false), w("foo", false)]]
    );
}

#[test]
fn empty_and_blank_commands_have_no_segments() {
    assert!(words("").is_empty());
    assert!(words("   \t ").is_empty());
    assert!(words(";;|&").is_empty());
}

#[test]
fn separators_end_segments() {
    assert_eq!(
        words("a b | c; d && e\nf (g) `h`"),
        vec![
            vec![w("a", false), w("b", false)],
            vec![w("c", false)],
            vec![w("d", false)],
            vec![w("e", false)],
            vec![w("f", false)],
            vec![w("g", false)],
            vec![w("h", false)],
        ]
    );
}

#[test]
fn separator_glued_to_words() {
    assert_eq!(words("a;b"), vec![vec![w("a", false)], vec![w("b", false)]]);
}

#[test]
fn single_quotes_keep_text_literal() {
    assert_eq!(
        words("rg -l 'rg -rn '"),
        vec![vec![w("rg", false), w("-l", false), w("rg -rn ", true)]]
    );
    assert_eq!(words("'a;b|c \\x \"y\"'"), vec![vec![w("a;b|c \\x \"y\"", true)]]);
}

#[test]
fn double_quotes_honour_backslash() {
    assert_eq!(words("\"a \\\" b\""), vec![vec![w("a \" b", true)]]);
    assert_eq!(words("\"x;y\"z"), vec![vec![w("x;yz", true)]]);
    assert_eq!(words("\"a; b | 'c'\""), vec![vec![w("a; b | 'c'", true)]]);
}

#[test]
fn empty_quotes_make_an_empty_word() {
    assert_eq!(words("a '' b"), vec![vec![w("a", false), w("", true), w("b", false)]]);
    assert_eq!(words("\"\""), vec![vec![w("", true)]]);
}

#[test]
fn backslash_escapes_outside_quotes() {
    assert_eq!(words("a\\ b c"), vec![vec![w("a b", false), w("c", false)]]);
    assert_eq!(words("a\\;b"), vec![vec![w("a;b", false)]]);
    assert_eq!(words("ab\\"), vec![vec![w("ab", false)]]);
    assert_eq!(words("\\"), Vec::<Vec<(String, bool)>>::new());
}

#[test]
fn unterminated_quote_runs_to_the_end() {
    assert_eq!(words("echo 'a b; c"), vec![vec![w("echo", false), w("a b; c", true)]]);
    assert_eq!(words("echo \"a\\"), vec![vec![w("echo", false), w("a", true)]]);
}

#[test]
fn partly_quoted_word_is_one_quoted_word() {
    assert_eq!(words("-r'n'"), vec![vec![w("-rn", true)]]);
}

#[test]
fn unicode_whitespace_splits() {
    assert_eq!(
        words("a\u{a0}b\u{3000}c\u{2028}d"),
        vec![vec![w("a", false), w("b", false), w("c", false), w("d", false)]]
    );
    assert_eq!(words("é ü"), vec![vec![w("é", false), w("ü", false)]]);
}

#[test]
fn space_class_matches_std() {
    for code in 0u32..0x110000 {
        if let Some(c) = char::from_u32(code) {
            assert_eq!(is_space(c), c.is_whitespace(), "{:?}", c);
            assert_eq!(is_alnum(c), c.is_ascii_alphanumeric(), "{:?}", c);
        }
    }
}

#[test]
fn same_text_compares_characters() {
    assert!(same_text("startup", "startup"));
    assert!(!same_text("startup", "startu"));
    assert!(!same_text("clear", "cleaR"));
    assert!(same_text("", ""));
}

/// Segments of text without quotes or backslashes, by plain splitting.
fn split_model(command: &str) -> Vec<Vec<(String, bool)>> {
    command
        .split(|c| "|;&\n()`".contains(c))
        .map(|p| p.split_whitespace().map(|w| (w.to_string(), false)).collect::<Vec<_>>())
        .filter(|s| !s.is_empty())
        .collect()
}

#[test]
fn plain_text_is_split() {
    let cases = [
        "",
        "rg -rn foo",
        "  a  b ;; c|d&&e\nf (g h) `i`  ",
        "x\u{a0}y\u{2003}z ; é ü",
        ";",
        "a;",
        ";a",
        "a | | b",
    ];
    for c in cases {
        assert_eq!(words(c), split_model(c), "{c:?}");
    }
}

#[test]
fn no_quote_characters_no_quoted_words() {
    for c in ["a\\ b | c", "rg -rn x; y\\", "\\'x", "a\\\"b"] {
        for seg in segments(c) {
            for t in seg {
                assert!(!t.quoted, "{c:?}");
            }
        }
    }
}
