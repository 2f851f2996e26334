use pst_extractor::banner::{
    core_alnum_len, html_to_text_rough, is_mostly_external_banner, normalize_newlines,
    strip_external_banner_lines,
};

#[test]
fn normalizes_crlf_and_lone_cr() {
    assert_eq!(normalize_newlines("a\r\nb\rc\nd"), "a\nb\nc\nd");
    assert_eq!(normalize_newlines("\r\r\n"), "\n\n");
    assert_eq!(normalize_newlines(""), "");
}

#[test]
fn counts_only_ascii_alphanumerics() {
    assert_eq!(core_alnum_len("ab c1!?"), 4);
    assert_eq!(core_alnum_len(""), 0);
    assert_eq!(core_alnum_len("<<<>>>...   "), 0);
}

#[test]
fn strips_banner_lines_and_keeps_blank_lines() {
    let text = "Hello\r\nCAUTION: EXTERNAL EMAIL do not trust this\r\n\r\nRegards";
    assert_eq!(strip_external_banner_lines(text), "Hello\n\nRegards");
}

#[test]
fn strips_each_banner_pattern() {
    assert_eq!(strip_external_banner_lines("WARNING external sender ahead"), "");
    assert_eq!(strip_external_banner_lines("This email originated outside"), "");
    assert_eq!(strip_external_banner_lines("do not click anything"), "");
    assert_eq!(strip_external_banner_lines("Don't click the link"), "");
    assert_eq!(strip_external_banner_lines("ignore unless you recognise the sender"), "");
    assert_eq!(strip_external_banner_lines("ignore unless you recognize the sender"), "");
    assert_eq!(strip_external_banner_lines("files are expected and known to be safe"), "");
    assert_eq!(
        strip_external_banner_lines("external email - caution advised"),
        ""
    );
    assert_eq!(strip_external_banner_lines("ordinary line"), "ordinary line");
}

#[test]
fn short_banner_heavy_text_is_mostly_banner() {
    assert!(is_mostly_external_banner(
        "CAUTION: EXTERNAL EMAIL\nDo not click links unless you recognize the sender"
    ));
    assert!(!is_mostly_external_banner("A perfectly ordinary message body."));
    // Without the word "external" the classifier never fires.
    assert!(!is_mostly_external_banner("do not click\n"));
}

#[test]
fn long_texts_are_never_mostly_banner() {
    let mut long_text = String::from("CAUTION: EXTERNAL EMAIL\n");
    for _ in 0..30 {
        long_text.push_str("meaningful content line with words\n");
    }
    assert!(!is_mostly_external_banner(&long_text));
}

#[test]
fn tag_stripper_removes_markup_only_for_scoring() {
    assert_eq!(html_to_text_rough("<p>Hello <b>world</b></p>"), "Hello world");
    assert_eq!(html_to_text_rough("no tags at all"), "no tags at all");
    assert_eq!(html_to_text_rough("<unclosed tag swallows"), "");
}
