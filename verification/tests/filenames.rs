use pst_extractor::attach::sanitize_filename;
use pst_extractor::mime::parse_param;
use pst_extractor::record::parse_sender;

#[test]
fn sanitizes_path_traversal_names() {
    assert_eq!(sanitize_filename("../../etc/passwd", "attachment.bin"), ".._.._etc_passwd");
    assert_eq!(sanitize_filename("C:\\temp\\x.doc", "attachment.bin"), "C:_temp_x.doc");
}

#[test]
fn sanitize_strips_control_characters() {
    assert_eq!(sanitize_filename("a\r\nb\0c.txt", "attachment.bin"), "abc.txt");
}

#[test]
fn sanitize_replaces_blank_names_with_the_fallback() {
    assert_eq!(sanitize_filename("", "attachment.bin"), "attachment.bin");
    assert_eq!(sanitize_filename("   \t ", "attachment.bin"), "attachment.bin");
}

#[test]
fn sanitize_caps_length_at_200_characters() {
    let long_name: String = std::iter::repeat('x').take(300).collect();
    let sanitized = sanitize_filename(&long_name, "attachment.bin");
    assert_eq!(sanitized.len(), 200);
    let expected: String = std::iter::repeat('x').take(200).collect();
    assert_eq!(sanitized, expected);
}

#[test]
fn parse_param_finds_quoted_and_unquoted_values() {
    assert_eq!(
        parse_param("attachment; filename=\"report.pdf\"", "filename"),
        Some(String::from("report.pdf"))
    );
    assert_eq!(
        parse_param("attachment; filename=report.pdf", "filename"),
        Some(String::from("report.pdf"))
    );
    assert_eq!(
        parse_param("application/pdf; name='x.pdf'", "name"),
        Some(String::from("x.pdf"))
    );
}

#[test]
fn parse_param_matches_keys_case_insensitively() {
    assert_eq!(
        parse_param("attachment; FILENAME=\"a.txt\"", "filename"),
        Some(String::from("a.txt"))
    );
    assert_eq!(
        parse_param("attachment; filename=\"a.txt\"", "FileName"),
        Some(String::from("a.txt"))
    );
}

#[test]
fn parse_param_treats_empty_values_as_absent() {
    assert_eq!(parse_param("attachment; filename=\"\"", "filename"), None);
    assert_eq!(parse_param("attachment; filename=  ", "filename"), None);
}

#[test]
fn parse_param_aborts_on_a_piece_without_equals() {
    assert_eq!(parse_param("attachment; oddpiece; filename=a.txt", "filename"), None);
    assert_eq!(parse_param("attachment", "filename"), None);
}

#[test]
fn parse_param_never_reads_the_leading_value() {
    assert_eq!(parse_param("filename=wrong.txt", "filename"), None);
}

#[test]
fn splits_name_and_email_from_angle_brackets() {
    assert_eq!(
        parse_sender("Alice Example <alice@example.com>"),
        (Some(String::from("alice@example.com")), Some(String::from("Alice Example")))
    );
    assert_eq!(
        parse_sender("\"Bob\" <bob@example.com>"),
        (Some(String::from("bob@example.com")), Some(String::from("Bob")))
    );
}

#[test]
fn bare_addresses_and_bare_names_are_split_best_effort() {
    assert_eq!(parse_sender("carol@example.com"), (Some(String::from("carol@example.com")), None));
    assert_eq!(parse_sender("Just A Name"), (None, Some(String::from("Just A Name"))));
    assert_eq!(parse_sender("   "), (None, None));
}

#[test]
fn empty_bracket_parts_become_absent() {
    assert_eq!(parse_sender("<dave@example.com>"), (Some(String::from("dave@example.com")), None));
    assert_eq!(parse_sender("Name <>"), (None, Some(String::from("Name"))));
}
