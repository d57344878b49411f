//! Configuration of a mail sent through a mail library: who sends it to
//! whom, with which subject, and which file becomes its body.
use vstd::prelude::*;
use crate::paths::{extension, extension_bounds};
use crate::text::{chars_of, str_eq, string_from_range};

verus! {

/// What the user entered for one mail.
pub struct MailConfig {
    sender_name: String,
    sender_email: String,
    receiver_name: String,
    receiver_email: String,
    subject: String,
    file_path_str: String,
}

/// How the body is labelled.
#[derive(Clone, Copy, Debug, PartialEq, Eq, Structural)]
pub enum BodyKind {
    TextHtml,
    TextPlain,
}

/// The body kind for an extension: `html` or `htm` is HTML, anything else
/// (including `txt`) is plain text; the flag tells whether the extension
/// was not recognised.
pub open spec fn body_kind_of(ext: Option<Seq<char>>) -> (BodyKind, bool) {
    match ext {
        Some(e) => if e == "html"@ || e == "htm"@ {
            (BodyKind::TextHtml, false)
        } else if e == "txt"@ {
            (BodyKind::TextPlain, false)
        } else {
            (BodyKind::TextPlain, true)
        },
        None => (BodyKind::TextPlain, true),
    }
}

impl MailConfig {
    pub fn new(
        sender_name: String,
        sender_email: String,
        receiver_name: String,
        receiver_email: String,
        subject: String,
        file_path_str: String,
    ) -> (res: Self)
        ensures
            res.view() == (
                sender_name@,
                sender_email@,
                receiver_name@,
                receiver_email@,
                subject@,
                file_path_str@,
            ),
    {
        MailConfig { sender_name, sender_email, receiver_name, receiver_email, subject, file_path_str }
    }

    /// Sender name and address, receiver name and address, subject, file.
    pub closed spec fn view(&self) -> (Seq<char>, Seq<char>, Seq<char>, Seq<char>, Seq<char>, Seq<char>) {
        (
            self.sender_name@,
            self.sender_email@,
            self.receiver_name@,
            self.receiver_email@,
            self.subject@,
            self.file_path_str@,
        )
    }

    pub fn sender_name(&self) -> (res: &str)
        ensures
            res@ == self@.0,
    {
        self.sender_name.as_str()
    }

    pub fn sender_email(&self) -> (res: &str)
        ensures
            res@ == self@.1,
    {
        self.sender_email.as_str()
    }

    pub fn receiver_name(&self) -> (res: &str)
        ensures
            res@ == self@.2,
    {
        self.receiver_name.as_str()
    }

    pub fn receiver_email(&self) -> (res: &str)
        ensures
            res@ == self@.3,
    {
        self.receiver_email.as_str()
    }

    pub fn subject(&self) -> (res: &str)
        ensures
            res@ == self@.4,
    {
        self.subject.as_str()
    }

    pub fn file_path(&self) -> (res: &str)
        ensures
            res@ == self@.5,
    {
        self.file_path_str.as_str()
    }

    /// How the body is labelled, from the file's extension, and whether
    /// the extension was unknown.
    pub fn body_kind(&self) -> (res: (BodyKind, bool))
        ensures
            res == body_kind_of(extension(self@.5)),
    {
        let cs = chars_of(self.file_path_str.as_str());
        match extension_bounds(cs.as_slice()) {
            None => (BodyKind::TextPlain, true),
            Some((b, e)) => {
                let ext = string_from_range(cs.as_slice(), b, e);
                if str_eq(ext.as_str(), "html") || str_eq(ext.as_str(), "htm") {
                    (BodyKind::TextHtml, false)
                } else if str_eq(ext.as_str(), "txt") {
                    (BodyKind::TextPlain, false)
                } else {
                    (BodyKind::TextPlain, true)
                }
            },
        }
    }
}

#[verifier::external_type_specification]
#[verifier::external_body]
pub struct ExAddress(lettre::Address);

#[verifier::external_type_specification]
#[verifier::external_body]
pub struct ExAddressError(lettre::address::AddressError);

/// Whether the mail library accepts `s` as an e-mail address.
pub uninterp spec fn valid_email_address(s: Seq<char>) -> bool;

/// Parses an e-mail address (`lettre::Address`'s `FromStr`): whether it
/// succeeds is a function of the text alone; the address grammar the mail
/// library checks is not restated.
#[verifier::external_body]
fn parse_address(s: &str) -> (res: Result<lettre::Address, lettre::address::AddressError>)
    ensures
        res is Ok <==> valid_email_address(s@),
{
    s.parse::<lettre::Address>()
}

/// Why the addresses of a mail were refused.
#[derive(Clone, Copy, Debug, PartialEq, Eq, Structural)]
pub enum AddressProblem {
    /// The sender's address is not a valid e-mail address.
    InvalidSender,
    /// The receiver's address is not a valid e-mail address.
    InvalidReceiver,
}

/// An e-mail address that the mail library accepts, kept as its text.
pub struct EmailAddress {
    text: String,
}

impl View for EmailAddress {
    type V = Seq<char>;

    closed spec fn view(&self) -> Seq<char> {
        self.text@
    }
}

impl EmailAddress {
    /// The text is an address the mail library accepts.
    #[verifier::type_invariant]
    spec fn accepted(self) -> bool {
        valid_email_address(self.text@)
    }

    /// The address's text, which the mail library accepts.
    pub fn as_str(&self) -> (res: &str)
        ensures
            res@ == self@,
            valid_email_address(res@),
    {
        proof {
            use_type_invariant(self);
        }
        self.text.as_str()
    }
}

impl MailConfig {
    /// The sender's and the receiver's addresses, in that order, when the
    /// mail library accepts both; the sender's is checked first.
    pub fn addresses(&self) -> (res: Result<(EmailAddress, EmailAddress), AddressProblem>)
        ensures
            res is Ok <==> valid_email_address(self@.1) && valid_email_address(self@.3),
            res matches Ok((f, t)) ==> f@ == self@.1 && t@ == self@.3,
            res == Err::<(EmailAddress, EmailAddress), AddressProblem>(AddressProblem::InvalidSender)
                <==> !valid_email_address(self@.1),
            res == Err::<(EmailAddress, EmailAddress), AddressProblem>(AddressProblem::InvalidReceiver)
                <==> valid_email_address(self@.1) && !valid_email_address(self@.3),
    {
        match parse_address(self.sender_email.as_str()) {
            Ok(_) => {},
            Err(_) => {
                return Err(AddressProblem::InvalidSender);
            },
        }
        match parse_address(self.receiver_email.as_str()) {
            Ok(_) => {},
            Err(_) => {
                return Err(AddressProblem::InvalidReceiver);
            },
        }
        let from = EmailAddress { text: self.sender_email.clone() };
        let to = EmailAddress { text: self.receiver_email.clone() };
        Ok((from, to))
    }
}

} // verus!
