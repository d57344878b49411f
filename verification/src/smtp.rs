//! A hand-written SMTP client's logic: the mail configuration, the message
//! text (base64 for binary attachments), the command script, and the
//! reading of (possibly multi-line) replies.
use base64::Engine;
use vstd::prelude::*;
use vstd::string::StringSliceAdditionalSpecFns;
use crate::paths::{extension, extension_bounds, matches_lowercase, range_matches_lowercase};
use crate::text::{chars_of, decimal, push_decimal, push_str, starts_with, string_of, trim, trim_bounds, string_from_range, string_from_utf8};

verus! {

/// What the user entered for one mail.
pub struct MailConfig {
    sender_name: String,
    sender_email: String,
    receiver_name: String,
    receiver_email: String,
    subject: String,
    file_path_str: String,
}

/// Content type of the attached file.
#[derive(Clone, Copy, Debug, PartialEq, Eq, Structural)]
pub enum ContentType {
    TextHtml,
    TextPlain,
    ImagePng,
    ImageJpeg,
    Binary,
}

/// A complete message, ready for the DATA command.
pub struct Message {
    message: String,
}

/// Why a message could not be built.
#[derive(Clone, Copy, Debug, PartialEq, Eq, Structural)]
pub enum MailError {
    /// A text attachment that is not valid UTF-8.
    TextNotUtf8,
}

/// The base64 digit of a value below 64: `A`–`Z`, `a`–`z`, `0`–`9`, `+`,
/// `/`.
pub open spec fn b64_digit(v: nat) -> char {
    if v < 26 {
        (65 + v) as char
    } else if v < 52 {
        (97 + v - 26) as char
    } else if v < 62 {
        (48 + v - 52) as char
    } else if v == 62 {
        '+'
    } else {
        '/'
    }
}

/// The standard base64 encoding of the data: every three bytes become four
/// digits of six bits each, high bits first; a final group of one or two
/// bytes is padded with `=` to four characters.
pub open spec fn base64_standard(data: Seq<u8>) -> Seq<char>
    decreases data.len(),
{
    if data.len() == 0 {
        Seq::empty()
    } else if data.len() == 1 {
        let a = data[0] as nat;
        seq![b64_digit(a / 4), b64_digit((a % 4) * 16), '=', '=']
    } else if data.len() == 2 {
        let a = data[0] as nat;
        let b = data[1] as nat;
        seq![b64_digit(a / 4), b64_digit((a % 4) * 16 + b / 16), b64_digit((b % 16) * 4), '=']
    } else {
        let a = data[0] as nat;
        let b = data[1] as nat;
        let c = data[2] as nat;
        seq![
            b64_digit(a / 4),
            b64_digit((a % 4) * 16 + b / 16),
            b64_digit((b % 16) * 4 + c / 64),
            b64_digit(c % 64),
        ] + base64_standard(data.subrange(3, data.len() as int))
    }
}

/// Standard base64 with padding
/// (`base64::engine::general_purpose::STANDARD.encode`), which writes the
/// data as `base64_standard` says.
#[verifier::external_body]
fn base64_encode(data: &[u8]) -> (res: String)
    ensures
        res@ == base64_standard(data@),
{
    base64::engine::general_purpose::STANDARD.encode(data)
}

/// The content type for a file extension, ignoring case.
pub open spec fn content_type_of(ext: Option<Seq<char>>) -> ContentType {
    match ext {
        Some(e) => if matches_lowercase(e, "html"@) {
            ContentType::TextHtml
        } else if matches_lowercase(e, "txt"@) {
            ContentType::TextPlain
        } else if matches_lowercase(e, "png"@) {
            ContentType::ImagePng
        } else if matches_lowercase(e, "jpg"@) || matches_lowercase(e, "jpeg"@) {
            ContentType::ImageJpeg
        } else {
            ContentType::Binary
        },
        None => ContentType::Binary,
    }
}

/// The MIME type of a content type.
pub open spec fn mime_of(ct: ContentType) -> Seq<char> {
    match ct {
        ContentType::TextHtml => "text/html; charset=utf-8"@,
        ContentType::TextPlain => "text/plain; charset=utf-8"@,
        ContentType::ImagePng => "image/png"@,
        ContentType::ImageJpeg => "image/jpeg"@,
        ContentType::Binary => "application/octet-stream"@,
    }
}

/// Whether a content type is sent base64-encoded.
pub open spec fn is_binary(ct: ContentType) -> bool {
    ct == ContentType::ImagePng || ct == ContentType::ImageJpeg || ct == ContentType::Binary
}

impl ContentType {
    /// The MIME type.
    pub fn as_mime_str(&self) -> (res: &'static str)
        ensures
            res@ == mime_of(*self),
    {
        match self {
            ContentType::TextHtml => "text/html; charset=utf-8",
            ContentType::TextPlain => "text/plain; charset=utf-8",
            ContentType::ImagePng => "image/png",
            ContentType::ImageJpeg => "image/jpeg",
            ContentType::Binary => "application/octet-stream",
        }
    }

    /// The content type of the file at `path`, from its extension
    /// (`html`, `txt`, `png`, `jpg`/`jpeg`, ignoring case); anything else
    /// is binary.
    pub fn for_path(path: &str) -> (res: ContentType)
        ensures
            res == content_type_of(extension(path@)),
    {
        let cs = chars_of(path);
        match extension_bounds(cs.as_slice()) {
            None => ContentType::Binary,
            Some((b, e)) => {
                if range_matches_lowercase(cs.as_slice(), b, e, "html") {
                    ContentType::TextHtml
                } else if range_matches_lowercase(cs.as_slice(), b, e, "txt") {
                    ContentType::TextPlain
                } else if range_matches_lowercase(cs.as_slice(), b, e, "png") {
                    ContentType::ImagePng
                } else if range_matches_lowercase(cs.as_slice(), b, e, "jpg")
                    || range_matches_lowercase(cs.as_slice(), b, e, "jpeg") {
                    ContentType::ImageJpeg
                } else {
                    ContentType::Binary
                }
            },
        }
    }
}

/// The text of a message.
pub open spec fn message_text(
    sender_name: Seq<char>,
    sender_email: Seq<char>,
    receiver_name: Seq<char>,
    receiver_email: Seq<char>,
    subject: Seq<char>,
    ct: ContentType,
    body: Seq<char>,
) -> Seq<char> {
    "From: "@ + sender_name + " <"@ + sender_email + ">\r\nTo: "@ + receiver_name + " <"@
        + receiver_email + ">\r\nSubject: "@ + subject + "\r\nContent-Type: "@ + mime_of(ct)
        + "\r\n"@ + (if is_binary(ct) {
        "Content-Transfer-Encoding: base64\r\n"@
    } else {
        Seq::empty()
    }) + "\r\n"@ + body + "\r\n."@
}

impl MailConfig {
    pub fn new(
        sender_name: String,
        sender_email: String,
        receiver_name: String,
        receiver_email: String,
        subject: String,
        file_path_str: String,
    ) -> (res: Self)
        ensures
            res.sender_name_view() == sender_name@,
            res.sender_email_view() == sender_email@,
            res.receiver_name_view() == receiver_name@,
            res.receiver_email_view() == receiver_email@,
            res.subject_view() == subject@,
            res.file_path_view() == file_path_str@,
    {
        MailConfig { sender_name, sender_email, receiver_name, receiver_email, subject, file_path_str }
    }

    pub closed spec fn sender_name_view(&self) -> Seq<char> {
        self.sender_name@
    }

    pub closed spec fn sender_email_view(&self) -> Seq<char> {
        self.sender_email@
    }

    pub closed spec fn receiver_name_view(&self) -> Seq<char> {
        self.receiver_name@
    }

    pub closed spec fn receiver_email_view(&self) -> Seq<char> {
        self.receiver_email@
    }

    pub closed spec fn subject_view(&self) -> Seq<char> {
        self.subject@
    }

    pub closed spec fn file_path_view(&self) -> Seq<char> {
        self.file_path_str@
    }

    pub fn sender_email(&self) -> (res: &str)
        ensures
            res@ == self.sender_email_view(),
    {
        self.sender_email.as_str()
    }

    pub fn receiver_email(&self) -> (res: &str)
        ensures
            res@ == self.receiver_email_view(),
    {
        self.receiver_email.as_str()
    }

    /// The path of the file to send.
    pub fn file_path(&self) -> (res: &str)
        ensures
            res@ == self.file_path_view(),
    {
        self.file_path_str.as_str()
    }

    /// The content type of the file to send.
    pub fn content_type(&self) -> (res: ContentType)
        ensures
            res == content_type_of(extension(self.file_path_view())),
    {
        ContentType::for_path(self.file_path_str.as_str())
    }

    /// Builds the message from the file's content: binary content is
    /// base64-encoded (and says so in a header); text must be UTF-8.
    pub fn build_message(&self, content: Vec<u8>) -> (res: Result<Message, MailError>)
        ensures
            ({
                let ct = content_type_of(extension(self.file_path_view()));
                if is_binary(ct) {
                    res matches Ok(m) && m.text() == message_text(
                        self.sender_name_view(),
                        self.sender_email_view(),
                        self.receiver_name_view(),
                        self.receiver_email_view(),
                        self.subject_view(),
                        ct,
                        base64_standard(content@),
                    )
                } else if vstd::utf8::valid_utf8(content@) {
                    res matches Ok(m) && m.text() == message_text(
                        self.sender_name_view(),
                        self.sender_email_view(),
                        self.receiver_name_view(),
                        self.receiver_email_view(),
                        self.subject_view(),
                        ct,
                        vstd::utf8::decode_utf8(content@),
                    )
                } else {
                    res == Err::<Message, MailError>(MailError::TextNotUtf8)
                }
            }),
    {
        let ct = self.content_type();
        let binary = match ct {
            ContentType::ImagePng | ContentType::ImageJpeg | ContentType::Binary => true,
            _ => false,
        };
        let body = if binary {
            base64_encode(content.as_slice())
        } else {
            match string_from_utf8(content) {
                Some(s) => s,
                None => {
                    return Err(MailError::TextNotUtf8);
                },
            }
        };
        Ok(self.message_from_body(body.as_str()))
    }

    /// The message for the file's content as sent: `body` is the text, or
    /// its base64 encoding when the content type is binary.
    pub fn message_from_body(&self, body: &str) -> (res: Message)
        ensures
            res.text() == message_text(
                self.sender_name_view(),
                self.sender_email_view(),
                self.receiver_name_view(),
                self.receiver_email_view(),
                self.subject_view(),
                content_type_of(extension(self.file_path_view())),
                body@,
            ),
    {
        let ct = self.content_type();
        let binary = match ct {
            ContentType::ImagePng | ContentType::ImageJpeg | ContentType::Binary => true,
            _ => false,
        };
        let mut m = string_of("From: ");
        push_str(&mut m, self.sender_name.as_str());
        push_str(&mut m, " <");
        push_str(&mut m, self.sender_email.as_str());
        push_str(&mut m, ">\r\nTo: ");
        push_str(&mut m, self.receiver_name.as_str());
        push_str(&mut m, " <");
        push_str(&mut m, self.receiver_email.as_str());
        push_str(&mut m, ">\r\nSubject: ");
        push_str(&mut m, self.subject.as_str());
        push_str(&mut m, "\r\nContent-Type: ");
        push_str(&mut m, ct.as_mime_str());
        push_str(&mut m, "\r\n");
        if binary {
            push_str(&mut m, "Content-Transfer-Encoding: base64\r\n");
        }
        push_str(&mut m, "\r\n");
        push_str(&mut m, body);
        push_str(&mut m, "\r\n.");
        let ghost expected = message_text(
            self.sender_name_view(),
            self.sender_email_view(),
            self.receiver_name_view(),
            self.receiver_email_view(),
            self.subject_view(),
            ct,
            body@,
        );
        assert(m@ =~= expected);
        Message { message: m }
    }

    /// The commands before the message, each with the reply code it
    /// expects: greeting, sender, recipient, then DATA.
    pub fn envelope_commands(&self) -> (res: Vec<(String, u16)>)
        ensures
            res@.len() == 4,
            res@[0].0@ == "EHLO localhost"@ && res@[0].1 == 250,
            res@[1].0@ == "MAIL FROM:<"@ + self.sender_email_view() + ">"@ && res@[1].1 == 250,
            res@[2].0@ == "RCPT TO:<"@ + self.receiver_email_view() + ">"@ && res@[2].1 == 250,
            res@[3].0@ == "DATA"@ && res@[3].1 == 354,
    {
        let mut from = string_of("MAIL FROM:<");
        push_str(&mut from, self.sender_email.as_str());
        push_str(&mut from, ">");
        let mut to = string_of("RCPT TO:<");
        push_str(&mut to, self.receiver_email.as_str());
        push_str(&mut to, ">");
        let mut v: Vec<(String, u16)> = Vec::new();
        v.push((string_of("EHLO localhost"), 250));
        v.push((from, 250));
        v.push((to, 250));
        v.push((string_of("DATA"), 354));
        v
    }
}

/// The reply code expected after the message.
pub const MESSAGE_ACCEPTED: u16 = 250;

/// The closing command and the reply code it expects.
pub fn quit_command() -> (res: (String, u16))
    ensures
        res.0@ == "QUIT"@,
        res.1 == 221,
{
    (string_of("QUIT"), 221)
}

/// The reply code of the server's greeting.
pub const GREETING: u16 = 220;

impl Message {
    pub closed spec fn text(&self) -> Seq<char> {
        self.message@
    }

    pub fn body(&self) -> (res: &str)
        ensures
            res@ == self.text(),
    {
        self.message.as_str()
    }
}

/// The line sent for a command: the command, then CR LF.
pub fn command_line(command: &str) -> (res: String)
    ensures
        res@ == command@ + "\r\n"@,
{
    let mut s = string_of(command);
    push_str(&mut s, "\r\n");
    s
}

/// The outcome of reading one more reply line.
pub enum ReplyStep {
    /// A continuation line: read another.
    More,
    /// The last line: the whole reply so far.
    Complete(String),
    /// The server closed the connection.
    Closed,
    /// The line does not start with the expected code (trimmed line).
    Unexpected(String),
    /// Neither a last line nor a continuation line (trimmed line).
    Malformed(String),
}

/// Reads a reply line by line, checking it carries the expected code.
pub struct ReplyReader {
    code_str: String,
    full_response: String,
}

impl ReplyReader {
    /// The code the reply must carry, in decimal.
    pub closed spec fn code(&self) -> Seq<char> {
        self.code_str@
    }

    /// The lines read so far, concatenated.
    pub closed spec fn so_far(&self) -> Seq<char> {
        self.full_response@
    }

    /// A reader expecting `expected_code`.
    pub fn new(expected_code: u16) -> (res: Self)
        ensures
            res.code() == decimal(expected_code as nat),
            res.so_far() == Seq::<char>::empty(),
    {
        let mut code_str = String::new();
        push_decimal(&mut code_str, expected_code as u64);
        ReplyReader { code_str, full_response: String::new() }
    }

    /// Takes the next line as read, line feed included (empty when the
    /// connection was closed). A line must start with the code; it ends the
    /// reply when its fourth character is a space or it is exactly three
    /// bytes long, and continues it when that character is a dash.
    pub fn feed(&mut self, line: &str) -> (res: ReplyStep)
        ensures
            final(self).code() == old(self).code(),
            line@.len() == 0 ==> res is Closed && final(self).so_far() == old(self).so_far(),
            line@.len() > 0 ==> final(self).so_far() == old(self).so_far() + line@,
            line@.len() > 0 ==> if !starts_with(line@, old(self).code()) {
                res matches ReplyStep::Unexpected(t) && t@ == trim(line@)
            } else if (line@.len() > 3 && line@[3] == ' ') || line.spec_bytes().len() == 3 {
                res matches ReplyStep::Complete(r) && r@ == old(self).so_far() + line@
            } else if !(line@.len() > 3 && line@[3] == '-') {
                res matches ReplyStep::Malformed(t) && t@ == trim(line@)
            } else {
                res is More
            },
    {
        let cs = chars_of(line);
        if cs.len() == 0 {
            return ReplyStep::Closed;
        }
        push_str(&mut self.full_response, line);
        let ghost after = self.so_far();
        let code = chars_of(self.code_str.as_str());
        let mut ok = code.len() <= cs.len();
        let mut i: usize = 0;
        while ok && i < code.len()
            invariant
                code@ == self.code(),
                self.so_far() == after,
                cs@ == line@,
                i <= code@.len(),
                ok ==> code@.len() <= cs@.len(),
                ok ==> forall|j: int| 0 <= j < i ==> cs@[j] == code@[j],
                !ok ==> !starts_with(line@, self.code()),
            decreases code@.len() - i,
        {
            if cs[i] != code[i] {
                ok = false;
                assert(line@.subrange(0, code@.len() as int)[i as int] != code@[i as int]);
            }
            i = i + 1;
        }
        if !ok {
            let (a, b) = trim_bounds(cs.as_slice(), 0, cs.len());
            assert(cs@.subrange(0, cs@.len() as int) =~= cs@);
            return ReplyStep::Unexpected(string_from_range(cs.as_slice(), a, b));
        }
        assert(line@.subrange(0, code@.len() as int) =~= code@);
        if (cs.len() > 3 && cs[3] == ' ') || line.as_bytes().len() == 3 {
            return ReplyStep::Complete(self.full_response.clone());
        }
        if !(cs.len() > 3 && cs[3] == '-') {
            let (a, b) = trim_bounds(cs.as_slice(), 0, cs.len());
            assert(cs@.subrange(0, cs@.len() as int) =~= cs@);
            return ReplyStep::Malformed(string_from_range(cs.as_slice(), a, b));
        }
        ReplyStep::More
    }
}

/// Law: each content type is labelled with its standard MIME name, and no
/// two content types share a label.
pub proof fn lemma_mime_names()
    ensures
        mime_of(ContentType::TextHtml) == "text/html; charset=utf-8"@,
        mime_of(ContentType::TextPlain) == "text/plain; charset=utf-8"@,
        mime_of(ContentType::ImagePng) == "image/png"@,
        mime_of(ContentType::ImageJpeg) == "image/jpeg"@,
        mime_of(ContentType::Binary) == "application/octet-stream"@,
        forall|a: ContentType, b: ContentType| #[trigger] mime_of(a) == #[trigger] mime_of(b) ==> a == b,
{
    reveal_strlit("text/html; charset=utf-8");
    reveal_strlit("text/plain; charset=utf-8");
    reveal_strlit("image/png");
    reveal_strlit("image/jpeg");
    reveal_strlit("application/octet-stream");
    assert forall|a: ContentType, b: ContentType| #[trigger] mime_of(a) == #[trigger] mime_of(b) implies a == b by {
        if a != b {
            let x = mime_of(a);
            let y = mime_of(b);
            if x.len() == y.len() {
                assert(x[0] != y[0] || x[6] != y[6]);
            }
        }
    }
}

} // verus!
