use pirelay::receive::{
    content_type, is_multipart, multipart_boundary, parse_multipart_reply,
    readable_multipart_reply, receive_targets, reply_kind, saved_file_name, sender_label,
    split_multipart, FileInfo, MultipartError, ReceivedPart, ReplyKind,
};

fn names(parts: &[ReceivedPart]) -> Vec<(String, String)> {
    parts.iter().map(|p| (p.filename.clone(), p.data.clone())).collect()
}

fn pair(a: &str, b: &str) -> (String, String) {
    (a.to_string(), b.to_string())
}

#[test]
fn mailbox_when_no_sender() {
    assert_eq!(receive_targets(&Vec::new()), vec!["".to_string()]);
    let s = vec!["alice".to_string(), "bob".to_string()];
    assert_eq!(receive_targets(&s), s);
}

#[test]
fn sender_labels() {
    assert_eq!(sender_label(""), "MailBox");
    assert_eq!(sender_label("alice"), "alice");
}

#[test]
fn content_types() {
    assert_eq!(content_type(None), "application/octet-stream");
    assert_eq!(content_type(Some("text/plain")), "text/plain");
    assert!(is_multipart("multipart/form-data; boundary=x"));
    assert!(is_multipart("application/x-multipart"));
    assert!(!is_multipart("application/octet-stream"));
    assert!(!is_multipart("Multipart/form-data"));
}

#[test]
fn saved_names() {
    assert_eq!(saved_file_name(None), "received_file");
    assert_eq!(saved_file_name(Some("a.txt".to_string())), "a.txt");
}

#[test]
fn unsynced_lines() {
    let f = FileInfo { name: "report.pdf".to_string(), size: 1048576 };
    assert_eq!(f.unsynced_line(), "Remote Unsynced: report.pdf (size: 1048576)");
    let f = FileInfo { name: "".to_string(), size: 0 };
    assert_eq!(f.unsynced_line(), "Remote Unsynced:  (size: 0)");
}

#[test]
fn boundaries() {
    assert_eq!(multipart_boundary("multipart/form-data; boundary=XYZ"), Some("XYZ".to_string()));
    assert_eq!(
        multipart_boundary("multipart/form-data; boundary=\"a b\" "),
        Some("a b".to_string())
    );
    assert_eq!(multipart_boundary("multipart/mixed"), None);
    assert_eq!(
        multipart_boundary("multipart/mixed; boundary=one; boundary=two"),
        Some("one;".to_string())
    );
}

const BODY: &str = "preamble\r\n--XYZ\r\nContent-Disposition: form-data; name=\"file\"; filename=\"a.txt\"\r\nContent-Type: text/plain\r\n\r\nhello\r\n--XYZ\r\ncontent-DISPOSITION: attachment; filename=b.bin\r\n\r\ndata\r\n\r\n--XYZ--\r\n";

#[test]
fn multipart_files() {
    let parts = split_multipart("multipart/form-data; boundary=\"XYZ\"", BODY).unwrap();
    assert_eq!(names(&parts), vec![pair("a.txt", "hello"), pair("b.bin", "data")]);
}

#[test]
fn multipart_from_bytes() {
    let parts = parse_multipart_reply("multipart/form-data; boundary=XYZ", BODY.as_bytes())
        .unwrap()
        .unwrap();
    assert_eq!(names(&parts), vec![pair("a.txt", "hello"), pair("b.bin", "data")]);
}

#[test]
fn multipart_invalid_utf8_is_replaced() {
    let mut body = b"--B\r\nContent-Disposition: x; filename=f\r\n\r\n".to_vec();
    body.extend_from_slice(&[0x61, 0xff, 0x62]);
    body.extend_from_slice(b"\r\n--B--");
    let parts = parse_multipart_reply("multipart/mixed; boundary=B", &body).unwrap().unwrap();
    assert_eq!(names(&parts), vec![pair("f", "a\u{FFFD}b")]);
}

#[test]
fn multipart_without_boundary() {
    assert!(matches!(split_multipart("multipart/form-data", BODY), Err(MultipartError::NoBoundary)));
    assert!(matches!(
        parse_multipart_reply("multipart/form-data", b"--x\r\nbroken"),
        Some(Err(MultipartError::NoBoundary))
    ));
}

#[test]
fn multipart_without_file_name() {
    let body = "--Q\r\nContent-Type: text/plain\r\n\r\nabc\r\n--Q\r\nContent-Disposition: inline\r\nX: filename=zzz\r\n\r\nxyz\r\n--Q--";
    let parts = split_multipart("multipart/mixed;boundary=Q", body).unwrap();
    assert_eq!(names(&parts), vec![pair("unknown_file", "abc"), pair("unknown_file", "xyz")]);
}

#[test]
fn multipart_unreadable_section() {
    let body = "--Q\r\nContent-Disposition: x; filename=a\r\n\r\nok\r\n--Q\r\nno blank line here\r\n--Q--";
    assert!(parse_multipart_reply("multipart/mixed; boundary=Q", body.as_bytes()).is_none());
}

#[test]
fn multipart_empty_and_closing_sections_are_skipped() {
    let body = "--Q--Q\r\n\r\n\r\nx\r\n--Q  --  \n";
    let parts = split_multipart("multipart/mixed; boundary=Q", body).unwrap();
    assert_eq!(names(&parts), vec![pair("unknown_file", "\r\nx")]);
}

#[test]
fn reply_kinds() {
    assert_eq!(reply_kind("multipart/mixed; boundary=Q", true), ReplyKind::Multipart);
    assert_eq!(reply_kind("multipart/mixed; boundary=Q", false), ReplyKind::Multipart);
    assert_eq!(reply_kind("application/json", true), ReplyKind::Listing);
    assert_eq!(reply_kind("application/octet-stream", false), ReplyKind::RawFile);
    assert_eq!(reply_kind("Multipart/mixed", false), ReplyKind::RawFile);
}

#[test]
fn readable_files_before_an_unreadable_section() {
    let body = "--Q\r\nContent-Disposition: x; filename=a\r\n\r\nok\r\n--Q\r\nno blank line here\r\n--Q\r\nContent-Disposition: x; filename=b\r\n\r\nlater\r\n--Q--";
    let (parts, complete) =
        readable_multipart_reply("multipart/mixed; boundary=Q", body.as_bytes()).unwrap();
    assert_eq!(names(&parts), vec![pair("a", "ok")]);
    assert!(!complete);
}

#[test]
fn readable_reply_that_is_complete() {
    let (parts, complete) =
        readable_multipart_reply("multipart/form-data; boundary=XYZ", BODY.as_bytes()).unwrap();
    assert_eq!(names(&parts), vec![pair("a.txt", "hello"), pair("b.bin", "data")]);
    assert!(complete);
    assert!(matches!(
        readable_multipart_reply("multipart/form-data", BODY.as_bytes()),
        Err(MultipartError::NoBoundary)
    ));
}
