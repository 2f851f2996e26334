use pst_extractor::attach::{collect_attachment_parts, is_attachment_part, is_inline_part};
use pst_extractor::csv::{attachment_csv_row, csv_escape, email_csv_row};
use pst_extractor::ident::sha256_bytes;
use pst_extractor::mime::{header_all, header_first, is_attachment_disposition, MimeHeader, MimePart};
use pst_extractor::record::{assemble_email, assemble_message_records};

fn leaf(mime_type: &str, headers: Vec<(&str, &str)>, text: Option<&str>, raw: Option<&[u8]>) -> MimePart {
    MimePart {
        mime_type: String::from(mime_type),
        headers: headers
            .into_iter()
            .map(|(n, v)| MimeHeader { name: String::from(n), value: String::from(v) })
            .collect(),
        children: Vec::new(),
        body_text: text.map(String::from),
        body_raw: raw.map(|b| b.to_vec()),
    }
}

fn tree(children: Vec<MimePart>, headers: Vec<(&str, &str)>) -> MimePart {
    MimePart {
        mime_type: String::from("multipart/mixed"),
        headers: headers
            .into_iter()
            .map(|(n, v)| MimeHeader { name: String::from(n), value: String::from(v) })
            .collect(),
        children,
        body_text: None,
        body_raw: None,
    }
}

#[test]
fn header_lookup_is_case_insensitive_and_trims() {
    let part = leaf("text/plain", vec![("SUBJECT", "  hello  "), ("Received", "a"), ("received", " b ")], None, None);
    assert_eq!(header_first(&part, "subject"), Some(String::from("hello")));
    assert_eq!(header_first(&part, "missing"), None);
    assert_eq!(header_all(&part, "RECEIVED"), vec![String::from("a"), String::from("b")]);
}

#[test]
fn blank_header_values_count_as_absent() {
    let part = leaf("text/plain", vec![("Subject", "   ")], None, None);
    assert_eq!(header_first(&part, "Subject"), None);
}

#[test]
fn attachment_disposition_detection() {
    let attached = leaf(
        "application/pdf",
        vec![("Content-Disposition", "Attachment; filename=\"x.pdf\"")],
        None,
        None,
    );
    assert!(is_attachment_disposition(&attached));
    let inline = leaf("image/png", vec![("Content-Disposition", "inline")], None, None);
    assert!(!is_attachment_disposition(&inline));
}

#[test]
fn inline_with_content_id_is_classified_inline() {
    let part = leaf(
        "image/png",
        vec![
            ("Content-Disposition", "inline; filename=\"logo.png\""),
            ("Content-ID", "<logo@local>"),
        ],
        None,
        Some(b"pngdata"),
    );
    assert!(is_attachment_part(&part));
    assert!(is_inline_part(&part));
}

#[test]
fn attachment_disposition_without_content_id_is_not_inline() {
    let part = leaf(
        "application/pdf",
        vec![("Content-Disposition", "attachment; filename=\"x.pdf\"")],
        None,
        Some(b"pdfdata"),
    );
    assert!(is_attachment_part(&part));
    assert!(!is_inline_part(&part));
}

#[test]
fn text_parts_are_never_attachments() {
    let part = leaf(
        "text/plain",
        vec![("Content-Disposition", "attachment; filename=\"note.txt\"")],
        Some("note"),
        Some(b"note"),
    );
    assert!(!is_attachment_part(&part));
}

#[test]
fn bare_filename_without_disposition_is_an_attachment() {
    let part = leaf(
        "application/octet-stream",
        vec![("Content-Type", "application/octet-stream; name=\"data.bin\"")],
        None,
        Some(b"data"),
    );
    assert!(is_attachment_part(&part));
    assert!(!is_inline_part(&part));
}

#[test]
fn collects_attachment_leaves_in_document_order() {
    let first = leaf(
        "application/pdf",
        vec![("Content-Disposition", "attachment; filename=\"a.pdf\"")],
        None,
        Some(b"a"),
    );
    let body = leaf("text/plain", vec![], Some("hello"), None);
    let second = leaf(
        "image/png",
        vec![("Content-Disposition", "inline; filename=\"b.png\""), ("Content-ID", "<b@x>")],
        None,
        Some(b"b"),
    );
    let root = tree(vec![first, body, second], vec![]);
    let mut parts: Vec<&MimePart> = Vec::new();
    collect_attachment_parts(&root, &mut parts);
    assert_eq!(parts.len(), 2);
    assert_eq!(parts[0].mime_type, "application/pdf");
    assert_eq!(parts[1].mime_type, "image/png");
}

#[test]
fn assembles_an_email_record_with_all_header_fields() {
    let body = leaf("text/plain", vec![], Some("the body text"), None);
    let root = tree(
        vec![body],
        vec![
            ("Message-ID", "<m1@x>"),
            ("Subject", "Greetings"),
            ("From", "Alice <alice@example.com>"),
            ("To", "bob@example.com"),
            ("Date", "Thu, 1 Jan 1970 00:00:10 +0000"),
            ("Received", "by relay1"),
            ("Received", "by relay2"),
        ],
    );
    let rec = assemble_email("batch1", "proj", "", "folder/mail", 0, &root);
    assert_eq!(rec.pst_file_id, "batch1");
    assert_eq!(rec.project_id, Some(String::from("proj")));
    assert_eq!(rec.case_id, None);
    assert_eq!(rec.source_path, "folder/mail");
    assert_eq!(rec.message_id, Some(String::from("<m1@x>")));
    assert_eq!(rec.subject, Some(String::from("Greetings")));
    assert_eq!(rec.from, Some(String::from("Alice <alice@example.com>")));
    assert_eq!(rec.to, Some(String::from("bob@example.com")));
    assert_eq!(rec.date_epoch, Some(10));
    assert_eq!(rec.received, vec![String::from("by relay1"), String::from("by relay2")]);
    assert_eq!(rec.body_text, Some(String::from("the body text")));
    assert_eq!(rec.body_html, None);
    assert_eq!(rec.sender_email, Some(String::from("alice@example.com")));
    assert_eq!(rec.sender_name, Some(String::from("Alice")));
    assert_eq!(rec.id.len(), 36);
}

#[test]
fn reassembling_identical_input_reproduces_identifiers() {
    let make = || {
        let body = leaf("text/plain", vec![], Some("hello"), None);
        let att = leaf(
            "application/pdf",
            vec![("Content-Disposition", "attachment; filename=\"x.pdf\"")],
            None,
            Some(b"pdfbytes"),
        );
        tree(vec![body, att], vec![("Message-ID", "<m@x>")])
    };
    let (email1, atts1) =
        assemble_message_records("b1", "", "", "src/path", 3, "bucket", "prefix/", &make());
    let (email2, atts2) =
        assemble_message_records("b1", "", "", "src/path", 3, "bucket", "prefix/", &make());
    assert_eq!(email1.id, email2.id);
    assert_eq!(atts1.len(), 1);
    assert_eq!(atts2.len(), 1);
    assert_eq!(atts1[0].id, atts2[0].id);

    // A different intra-file index yields a different email identifier.
    let (email3, _) =
        assemble_message_records("b1", "", "", "src/path", 4, "bucket", "prefix/", &make());
    assert_ne!(email1.id, email3.id);
}

#[test]
fn assembles_attachment_records_with_hash_and_key() {
    let att = leaf(
        "application/pdf",
        vec![("Content-Disposition", "attachment; filename=\"Report 2024.pdf\"")],
        None,
        Some(b"pdfbytes"),
    );
    let empty = leaf(
        "application/zip",
        vec![("Content-Disposition", "attachment; filename=\"empty.zip\"")],
        None,
        Some(b""),
    );
    let root = tree(vec![att, empty], vec![]);
    let (email, atts) =
        assemble_message_records("b1", "p", "c", "src", 0, "bucket", "/out/", &root);
    assert_eq!(atts.len(), 1, "empty attachments are skipped");
    let rec = &atts[0];
    assert_eq!(rec.email_message_id, email.id);
    assert_eq!(rec.filename, "Report 2024.pdf");
    assert_eq!(rec.content_type, Some(String::from("application/pdf")));
    assert_eq!(rec.file_size_bytes, 8);
    assert_eq!(rec.attachment_hash, sha256_bytes(b"pdfbytes"));
    assert_eq!(rec.s3_bucket, "bucket");
    assert_eq!(
        rec.s3_key,
        format!("out/attachments/{}/{}__{}", email.id, rec.id, "Report 2024.pdf")
    );
    assert!(!rec.is_inline);
    assert_eq!(rec.content_id, None);
    assert_eq!(rec.source_path, "src");
}

#[test]
fn unnamed_attachments_get_a_position_derived_name() {
    let att = leaf("application/octet-stream", vec![("Content-Disposition", "attachment")], None, Some(b"xy"));
    let root = tree(vec![att], vec![]);
    let (_, atts) = assemble_message_records("b", "", "", "s", 0, "bk", "", &root);
    assert_eq!(atts.len(), 1);
    assert_eq!(atts[0].filename, "attachment-000.bin");
}

#[test]
fn csv_escaping_quotes_only_when_needed() {
    assert_eq!(csv_escape("plain"), "plain");
    assert_eq!(csv_escape("a,b"), "\"a,b\"");
    assert_eq!(csv_escape("say \"hi\""), "\"say \"\"hi\"\"\"");
    assert_eq!(csv_escape("line\nbreak"), "\"line\nbreak\"");
    assert_eq!(csv_escape("car\rreturn"), "\"car\rreturn\"");
    assert_eq!(csv_escape(""), "");
}

#[test]
fn renders_rows_in_the_fixed_column_order() {
    let body = leaf("text/plain", vec![], Some("a,b"), None);
    let root = tree(
        vec![body],
        vec![("Message-ID", "<m@x>"), ("Subject", "S"), ("From", "x@y")],
    );
    let (email, _) = assemble_message_records("b", "p", "c", "s", 0, "bk", "", &root);
    let row = email_csv_row(&email);
    let expected = format!(
        "{},b,p,c,<m@x>,,,S,x@y,,,,,,x@y,,\"a,b\",,s",
        email.id
    );
    assert_eq!(row, expected);

    let att = leaf(
        "application/pdf",
        vec![("Content-Disposition", "attachment; filename=\"f.pdf\"")],
        None,
        Some(b"zz"),
    );
    let root2 = tree(vec![att], vec![]);
    let (email2, atts) = assemble_message_records("b", "", "", "s", 0, "bk", "", &root2);
    let row2 = attachment_csv_row(&atts[0]);
    let expected2 = format!(
        "{},{},b,,,f.pdf,application/pdf,2,bk,{},{},false,,s",
        atts[0].id, email2.id, atts[0].s3_key, atts[0].attachment_hash
    );
    assert_eq!(row2, expected2);
}
