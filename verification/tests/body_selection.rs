use pst_extractor::body::select_email_bodies;
use pst_extractor::banner::is_mostly_external_banner;
use pst_extractor::mime::{MimeHeader, MimePart};

fn convert(mail: &mailparse::ParsedMail) -> MimePart {
    let headers = mail
        .headers
        .iter()
        .map(|h| MimeHeader { name: h.get_key(), value: h.get_value() })
        .collect();
    let children: Vec<MimePart> = mail.subparts.iter().map(convert).collect();
    let (body_text, body_raw) = if mail.subparts.is_empty() {
        (mail.get_body().ok(), mail.get_body_raw().ok())
    } else {
        (None, None)
    };
    MimePart { mime_type: mail.ctype.mimetype.clone(), headers, children, body_text, body_raw }
}

#[test]
fn selects_non_banner_plain_text_over_banner_only_part() {
    let raw = "From: Sender <s@example.com>\r\nTo: You <y@example.com>\r\nSubject: Test\r\nMIME-Version: 1.0\r\nContent-Type: multipart/mixed; boundary=BOUND\r\n\r\n--BOUND\r\nContent-Type: text/plain; charset=utf-8\r\n\r\nCAUTION: EXTERNAL EMAIL\r\nDo not click links unless you recognize the sender\r\n\r\n--BOUND\r\nContent-Type: multipart/alternative; boundary=ALT\r\n\r\n--ALT\r\nContent-Type: text/plain; charset=utf-8\r\n\r\nHello team,\r\nThis is the real body text.\r\n--ALT\r\nContent-Type: text/html; charset=utf-8\r\n\r\n<html><body><p>Hello team,</p><p>This is the real body text.</p></body></html>\r\n--ALT--\r\n--BOUND--\r\n"
    .as_bytes();

    let mail = mailparse::parse_mail(raw).expect("parse_mail");
    let tree = convert(&mail);
    let (bt, _bh) = select_email_bodies(&tree);
    let bt = bt.expect("expected body text");
    assert!(bt.contains("real body"));
    assert!(!is_mostly_external_banner(&bt));
}

#[test]
fn drops_banner_only_plain_when_html_has_meaningful_content() {
    let raw = "From: Sender <s@example.com>\r\nTo: You <y@example.com>\r\nSubject: Test\r\nMIME-Version: 1.0\r\nContent-Type: multipart/alternative; boundary=ALT\r\n\r\n--ALT\r\nContent-Type: text/plain; charset=utf-8\r\n\r\nCAUTION: EXTERNAL EMAIL\r\nDo not click links unless you recognize the sender\r\n--ALT\r\nContent-Type: text/html; charset=utf-8\r\n\r\n<html><body><p>Real content is only in HTML.</p></body></html>\r\n--ALT--\r\n"
    .as_bytes();

    let mail = mailparse::parse_mail(raw).expect("parse_mail");
    let tree = convert(&mail);
    let (bt, bh) = select_email_bodies(&tree);

    let bt = bt.expect("expected derived text body");
    assert!(!is_mostly_external_banner(&bt));
    assert!(bt.to_ascii_lowercase().contains("real content"));
    assert!(bh.is_some(), "expected HTML body");
}

#[test]
fn ignores_text_plain_attachments_when_selecting_body() {
    let raw = "From: Sender <s@example.com>\r\nTo: You <y@example.com>\r\nSubject: Test\r\nMIME-Version: 1.0\r\nContent-Type: multipart/mixed; boundary=BOUND\r\n\r\n--BOUND\r\nContent-Type: text/plain; charset=utf-8\r\n\r\nBody text here.\r\n--BOUND\r\nContent-Type: text/plain; charset=utf-8\r\nContent-Disposition: attachment; filename=\"note.txt\"\r\n\r\nThis is an attached note and should not be selected as the body.\r\n--BOUND--\r\n"
    .as_bytes();

    let mail = mailparse::parse_mail(raw).expect("parse_mail");
    let tree = convert(&mail);
    let (bt, _bh) = select_email_bodies(&tree);
    let bt = bt.expect("expected body text");
    assert!(bt.contains("Body text here"));
    assert!(!bt.contains("attached note"));
}

#[test]
fn banner_only_plain_text_is_classified_mostly_banner() {
    let banner = "CAUTION: EXTERNAL EMAIL\nDo not click links unless you recognize the sender";
    assert!(is_mostly_external_banner(banner));
}

#[test]
fn falls_back_to_longest_raw_candidate_when_all_scores_are_zero() {
    let short_banner = MimePart {
        mime_type: String::from("text/plain"),
        headers: Vec::new(),
        children: Vec::new(),
        body_text: Some(String::from("CAUTION: EXTERNAL EMAIL")),
        body_raw: None,
    };
    let long_banner = MimePart {
        mime_type: String::from("text/plain"),
        headers: Vec::new(),
        children: Vec::new(),
        body_text: Some(String::from(
            "WARNING: EXTERNAL EMAIL do not click links unless you recognize the sender",
        )),
        body_raw: None,
    };
    let root = MimePart {
        mime_type: String::from("multipart/mixed"),
        headers: Vec::new(),
        children: vec![short_banner, long_banner],
        body_text: None,
        body_raw: None,
    };
    let best = pst_extractor::body::choose_best_body_text(&root).expect("a candidate");
    assert!(best.starts_with("WARNING"));
}
