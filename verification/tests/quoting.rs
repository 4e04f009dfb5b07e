use emacs_i3::emacs::EmacsClient;

#[test]
fn test_quote_argument() {
    assert_eq!(
        EmacsClient::quote_argument("(message \"test\")"),
        "(message&_\"test\")"
    );
}

#[test]
fn test_unquote_argument() {
    assert_eq!(EmacsClient::unquote_argument("(a&_+&_1)&n"), "(a + 1)\n");
}

#[test]
fn quote_escapes_leading_dash_only_at_start() {
    assert_eq!(EmacsClient::quote_argument("-foo"), "&-foo");
    assert_eq!(EmacsClient::quote_argument("a-b"), "a-b");
}

#[test]
fn quote_escapes_ampersand_and_space() {
    assert_eq!(EmacsClient::quote_argument("a&b c"), "a&&b&_c");
}

#[test]
fn quote_escapes_newline() {
    assert_eq!(EmacsClient::quote_argument("a\nb"), "a&nb");
}

#[test]
fn quote_empty_is_empty() {
    assert_eq!(EmacsClient::quote_argument(""), "");
}

#[test]
fn quote_keeps_first_character_unescaped() {
    assert_eq!(EmacsClient::quote_argument(" a b"), " a&_b");
}

#[test]
fn roundtrip_on_assorted_strings() {
    let cases = [
        "",
        "-foo",
        "a&b c",
        "hello world",
        "line one\nline two",
        "(message \"hi there\")",
        "- leading dash then space",
        "trailing ampersand &",
        "x&",
        "mixed -&_ n\n&",
    ];
    for s in cases {
        assert_eq!(
            EmacsClient::unquote_argument(&EmacsClient::quote_argument(s)),
            s
        );
    }
}

#[test]
fn is_quoted_wf_accepts_complete_escapes() {
    assert!(EmacsClient::is_quoted_wf(""));
    assert!(EmacsClient::is_quoted_wf("(a&_b)"));
    assert!(EmacsClient::is_quoted_wf("&&&_&n"));
    assert!(EmacsClient::is_quoted_wf("plain"));
}

#[test]
fn is_quoted_wf_rejects_truncated_escape() {
    assert!(!EmacsClient::is_quoted_wf("&"));
    assert!(!EmacsClient::is_quoted_wf("abc&"));
    assert!(!EmacsClient::is_quoted_wf("a&&b&"));
}

#[test]
fn unquote_decodes_every_escape_kind() {
    assert_eq!(EmacsClient::unquote_argument("&-flag"), "-flag");
    assert_eq!(EmacsClient::unquote_argument("a&&b"), "a&b");
    assert_eq!(EmacsClient::unquote_argument("a&_b&nc"), "a b\nc");
}
