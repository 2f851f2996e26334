use pst_extractor::segment::{looks_like_mbox, segment_blob, split_mbox};

#[test]
fn splits_two_mbox_messages_and_drops_envelope_lines() {
    let blob = b"From alice@example.com Mon Jan  1 00:00:00 2024\nFrom: a@x\n\nfirst body\nFrom bob@example.com Mon Jan  1 00:01:00 2024\nFrom: b@x\n\nsecond body\n";
    assert!(looks_like_mbox(blob));
    let messages = split_mbox(blob);
    assert_eq!(messages.len(), 2);
    assert_eq!(messages[0], b"From: a@x\n\nfirst body\n".to_vec());
    assert_eq!(messages[1], b"From: b@x\n\nsecond body\n".to_vec());
}

#[test]
fn mbox_detection_requires_marker_at_start_or_after_newline() {
    assert!(looks_like_mbox(b"From alice Mon\ndata"));
    assert!(looks_like_mbox(b"junk\nFrom alice Mon\ndata"));
    assert!(!looks_like_mbox(b"a letter From someone"));
    assert!(!looks_like_mbox(b""));
}

#[test]
fn split_without_any_boundary_returns_whole_blob() {
    let blob = b"Subject: hi\n\nhello world\n";
    let messages = split_mbox(blob);
    assert_eq!(messages.len(), 1);
    assert_eq!(messages[0], blob.to_vec());
}

#[test]
fn segment_skips_tiny_and_unrecognizable_blobs() {
    assert!(segment_blob(b"short").is_empty());
    let not_mail = b"this file is no mail at all, only metadata text";
    assert!(segment_blob(not_mail).is_empty());
}

#[test]
fn segment_passes_recognizable_single_messages_whole() {
    for raw in [
        b"From: a@x\n\nbody body".as_slice(),
        b"Return-Path: <a@x>\n\nbody".as_slice(),
        b"Received: by relay\n\nbody".as_slice(),
        b"Date: Mon, 1 Jan 2024 00:00:00 +0000\n".as_slice(),
        b"Subject: hello there\n\nbody".as_slice(),
    ] {
        let messages = segment_blob(raw);
        assert_eq!(messages.len(), 1);
        assert_eq!(messages[0], raw.to_vec());
    }
}

#[test]
fn segment_splits_mbox_containers() {
    let blob = b"From a\nSubject: one\n\nx\nFrom b\nSubject: two\n\ny\n";
    let messages = segment_blob(blob);
    assert_eq!(messages.len(), 2);
    assert_eq!(messages[0], b"Subject: one\n\nx\n".to_vec());
    assert_eq!(messages[1], b"Subject: two\n\ny\n".to_vec());
}

#[test]
fn segment_drops_empty_remainders() {
    let blob = b"From a\nFrom b\nSubject: two\n\nbody\n";
    let messages = split_mbox(blob);
    assert_eq!(messages.len(), 1);
    assert_eq!(messages[0], b"Subject: two\n\nbody\n".to_vec());
}
