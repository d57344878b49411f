use netlabs::email::{AddressProblem, BodyKind, MailConfig as LibMailConfig};
use netlabs::smtp::{
    command_line, quit_command, ContentType, MailConfig, MailError, ReplyReader, ReplyStep,
    GREETING, MESSAGE_ACCEPTED,
};

fn config(path: &str) -> MailConfig {
    MailConfig::new(
        "Alice".to_string(),
        "a@x.org".to_string(),
        "Bob".to_string(),
        "b@y.org".to_string(),
        "Hi".to_string(),
        path.to_string(),
    )
}

#[test]
fn content_type_from_extension() {
    assert_eq!(ContentType::for_path("dir/page.html"), ContentType::TextHtml);
    assert_eq!(ContentType::for_path("notes.TXT"), ContentType::TextPlain);
    assert_eq!(ContentType::for_path("a/b/photo.PNG"), ContentType::ImagePng);
    assert_eq!(ContentType::for_path("x.jpeg"), ContentType::ImageJpeg);
    assert_eq!(ContentType::for_path("x.Jpg"), ContentType::ImageJpeg);
    assert_eq!(ContentType::for_path("archive.tar.gz"), ContentType::Binary);
    assert_eq!(ContentType::for_path("README"), ContentType::Binary);
    assert_eq!(ContentType::for_path(".html"), ContentType::Binary);
    assert_eq!(ContentType::ImagePng.as_mime_str(), "image/png");
    assert_eq!(ContentType::TextHtml.as_mime_str(), "text/html; charset=utf-8");
    assert_eq!(ContentType::Binary.as_mime_str(), "application/octet-stream");
}

#[test]
fn text_message_is_exact() {
    let m = config("a.txt").build_message(b"hello".to_vec()).unwrap();
    assert_eq!(
        m.body(),
        "From: Alice <a@x.org>\r\nTo: Bob <b@y.org>\r\nSubject: Hi\r\nContent-Type: text/plain; charset=utf-8\r\n\r\nhello\r\n."
    );
}

#[test]
fn binary_message_is_base64() {
    let m = config("img.png").build_message(vec![0x89, 0x50, 0x4e, 0x47, 1, 2, 3]).unwrap();
    assert_eq!(
        m.body(),
        "From: Alice <a@x.org>\r\nTo: Bob <b@y.org>\r\nSubject: Hi\r\nContent-Type: image/png\r\nContent-Transfer-Encoding: base64\r\n\r\niVBORwECAw==\r\n."
    );
    let m = config("data.bin").message_from_body("AAAA");
    assert!(m.body().ends_with("base64\r\n\r\nAAAA\r\n."));
}

#[test]
fn invalid_utf8_text_is_refused() {
    let r = config("a.txt").build_message(vec![0xff, 0xfe]);
    assert!(matches!(r, Err(MailError::TextNotUtf8)));
}

#[test]
fn smtp_script() {
    let cfg = config("a.txt");
    let cmds = cfg.envelope_commands();
    let expected: Vec<(String, u16)> = vec![
        ("EHLO localhost".to_string(), 250),
        ("MAIL FROM:<a@x.org>".to_string(), 250),
        ("RCPT TO:<b@y.org>".to_string(), 250),
        ("DATA".to_string(), 354),
    ];
    assert_eq!(cmds, expected);
    assert_eq!(quit_command(), ("QUIT".to_string(), 221));
    assert_eq!(command_line("NOOP"), "NOOP\r\n");
    assert_eq!(GREETING, 220);
    assert_eq!(MESSAGE_ACCEPTED, 250);
    assert_eq!(cfg.sender_email(), "a@x.org");
    assert_eq!(cfg.receiver_email(), "b@y.org");
    assert_eq!(cfg.file_path(), "a.txt");
}

#[test]
fn reply_reader_multiline() {
    let mut r = ReplyReader::new(250);
    assert!(matches!(r.feed("250-first\r\n"), ReplyStep::More));
    match r.feed("250 last\r\n") {
        ReplyStep::Complete(all) => assert_eq!(all, "250-first\r\n250 last\r\n"),
        _ => panic!("expected the end of the reply"),
    }
}

#[test]
fn reply_reader_errors() {
    let mut r = ReplyReader::new(220);
    assert!(matches!(r.feed(""), ReplyStep::Closed));
    match r.feed("554 go away\r\n") {
        ReplyStep::Unexpected(line) => assert_eq!(line, "554 go away"),
        _ => panic!("wrong code must be reported"),
    }
    let mut r = ReplyReader::new(220);
    match r.feed("220xyz\n") {
        ReplyStep::Malformed(line) => assert_eq!(line, "220xyz"),
        _ => panic!("malformed line must be reported"),
    }
    let mut r = ReplyReader::new(220);
    assert!(matches!(r.feed("220"), ReplyStep::Complete(_)));
}

#[test]
fn mail_library_body_kind() {
    let mk = |p: &str| {
        LibMailConfig::new(
            "A".to_string(),
            "a@x".to_string(),
            "B".to_string(),
            "b@y".to_string(),
            "S".to_string(),
            p.to_string(),
        )
    };
    assert_eq!(mk("page.html").body_kind(), (BodyKind::TextHtml, false));
    assert_eq!(mk("page.htm").body_kind(), (BodyKind::TextHtml, false));
    assert_eq!(mk("notes.txt").body_kind(), (BodyKind::TextPlain, false));
    assert_eq!(mk("notes.md").body_kind(), (BodyKind::TextPlain, true));
    assert_eq!(mk("notes").body_kind(), (BodyKind::TextPlain, true));
    assert_eq!(mk("notes").sender_email(), "a@x");
    assert_eq!(mk("notes").receiver_email(), "b@y");
}

#[test]
fn mail_library_addresses() {
    let mk = |from: &str, to: &str| {
        LibMailConfig::new(
            "A".to_string(),
            from.to_string(),
            "B".to_string(),
            to.to_string(),
            "S".to_string(),
            "x.txt".to_string(),
        )
    };
    let (from, to) = mk("alice@example.com", "bob@example.org").addresses().expect("valid addresses");
    assert_eq!(from.as_str(), "alice@example.com");
    assert_eq!(to.as_str(), "bob@example.org");
    assert!(matches!(mk("not an address", "bob@example.org").addresses(), Err(AddressProblem::InvalidSender)));
    assert!(matches!(mk("not an address", "also bad").addresses(), Err(AddressProblem::InvalidSender)));
    assert!(matches!(mk("alice@example.com", "bob").addresses(), Err(AddressProblem::InvalidReceiver)));
}

#[test]
fn base64_bodies_of_every_padding() {
    let body = |data: &[u8]| {
        let m = config("x.bin").build_message(data.to_vec()).unwrap();
        let text = m.body().to_string();
        let start = text.find("base64\r\n\r\n").unwrap() + "base64\r\n\r\n".len();
        text[start..text.len() - 3].to_string()
    };
    assert_eq!(body(b""), "");
    assert_eq!(body(b"M"), "TQ==");
    assert_eq!(body(b"Ma"), "TWE=");
    assert_eq!(body(b"Man"), "TWFu");
    assert_eq!(body(b"Man!"), "TWFuIQ==");
    assert_eq!(body(&[0xff, 0xfe]), "//4=");
}
