//! The control-connection logic of an FTP client: reply codes, reply
//! lines, multi-line replies, and the address of a passive data
//! connection.
use vstd::prelude::*;
use vstd::string::StringSliceAdditionalSpecFns;
use vstd::utf8::{decode_utf8, encode_utf8, is_char_boundary, valid_utf8};
use crate::text::{chars_of, next_index_of, push_str, string_from_range, string_of, trim, trim_bounds, string_from_utf8};

verus! {

/// A three-digit FTP reply code.
#[derive(Clone, Copy, Debug)]
pub struct ResponseCode {
    pub code: u16,
}

impl ResponseCode {
    /// The reply code with the given value (`u16::into`).
    pub fn from_code(code: u16) -> (res: Self)
        ensures
            res.code == code,
    {
        ResponseCode { code }
    }

    /// Positive completion: 2xx.
    pub fn is_ok(&self) -> (res: bool)
        ensures
            res == (200 <= self.code && self.code < 300),
    {
        200 <= self.code && self.code < 300
    }

    /// Negative completion: 4xx or 5xx.
    pub fn is_err(&self) -> (res: bool)
        ensures
            res == (400 <= self.code && self.code < 600),
    {
        400 <= self.code && self.code < 600
    }

    /// Positive preliminary: 1xx.
    pub fn is_incomplete(&self) -> (res: bool)
        ensures
            res == (100 <= self.code && self.code < 200),
    {
        100 <= self.code && self.code < 200
    }
}

/// Why a reply could not be used.
#[derive(Debug)]
pub enum FtpError {
    /// The line or message could not be parsed (the text is kept).
    Unparsable(String),
    /// A number was not a valid decimal number of its type.
    BadNumber,
    /// The server answered with an error (its message).
    Server(String),
}

/// A command with an argument, as sent: `{command} {message}` and a line
/// feed.
pub fn message_line(command: &str, message: &str) -> (res: String)
    ensures
        res@ == command@ + " "@ + message@ + "\n"@,
{
    let mut s = string_of(command);
    push_str(&mut s, " ");
    push_str(&mut s, message);
    push_str(&mut s, "\n");
    s
}

/// A command without argument, as sent: the command and a line feed.
pub fn command_line(command: &str) -> (res: String)
    ensures
        res@ == command@ + "\n"@,
{
    let mut s = string_of(command);
    push_str(&mut s, "\n");
    s
}

/// Whether the byte is an ASCII digit.
pub open spec fn is_digit(b: u8) -> bool {
    48 <= b <= 57
}

/// The value of a sequence of ASCII digits.
pub open spec fn digits_value(d: Seq<u8>) -> nat
    decreases d.len(),
{
    if d.len() == 0 {
        0
    } else {
        digits_value(d.drop_last()) * 10 + (d.last() - 48) as nat
    }
}

/// The digits of an unsigned decimal literal as `from_str` reads it: an
/// optional leading `+`, then at least one ASCII digit and nothing else.
pub open spec fn literal_digits(s: Seq<u8>) -> Option<Seq<u8>> {
    let d = literal_body(s);
    if d.len() > 0 && all_digits(d) {
        Some(d)
    } else {
        None
    }
}

/// A literal without its optional leading `+`.
pub open spec fn literal_body(s: Seq<u8>) -> Seq<u8> {
    if s.len() > 0 && s[0] == 43 {
        s.subrange(1, s.len() as int)
    } else {
        s
    }
}

/// Whether every byte is an ASCII digit.
pub open spec fn all_digits(d: Seq<u8>) -> bool {
    forall|i: int| 0 <= i < d.len() ==> is_digit(#[trigger] d[i])
}

/// The value of an unsigned decimal literal no greater than `max`.
pub open spec fn parse_unsigned(s: Seq<u8>, max: nat) -> Option<nat> {
    match literal_digits(s) {
        Some(d) => if digits_value(d) <= max {
            Some(digits_value(d))
        } else {
            None
        },
        None => None,
    }
}

/// Parses an unsigned decimal literal no greater than `max` (as
/// `u8::from_str` and `u16::from_str` do for their maximum).
pub fn parse_unsigned_bytes(s: &[u8], max: u32) -> (res: Option<u32>)
    requires
        max <= 0xFFFF,
    ensures
        res matches Some(v) ==> parse_unsigned(s@, max as nat) == Some(v as nat),
        res is None ==> parse_unsigned(s@, max as nat) is None,
{
    let n = s.len();
    let start: usize = if n > 0 && s[0] == 43 {
        1
    } else {
        0
    };
    let ghost d = s@.subrange(start as int, n as int);
    assert(d =~= (if s@.len() > 0 && s@[0] == 43 {
        s@.subrange(1, s@.len() as int)
    } else {
        s@
    }));
    if start >= n {
        assert(d.len() == 0);
        return None;
    }
    let mut v: u32 = 0;
    let mut i: usize = start;
    let mut too_big = false;
    while i < n
        invariant
            start <= i <= n,
            n == s@.len(),
            d == s@.subrange(start as int, n as int),
            d == (if s@.len() > 0 && s@[0] == 43 {
                s@.subrange(1, s@.len() as int)
            } else {
                s@
            }),
            max <= 0xFFFF,
            forall|j: int| start <= j < i ==> is_digit(#[trigger] s@[j]),
            !too_big ==> v as nat == digits_value(d.subrange(0, i - start)) && v <= max,
            too_big ==> digits_value(d.subrange(0, i - start)) > max,
        decreases n - i,
    {
        let b = s[i];
        if b < 48 || b > 57 {
            assert(!is_digit(d[i - start]));
            assert(!all_digits(d));
            assert(literal_digits(s@) is None);
            return None;
        }
        proof {
            assert(d.subrange(0, i + 1 - start).drop_last() =~= d.subrange(0, i - start));
            lemma_digits_monotone(d.subrange(0, i + 1 - start));
        }
        if !too_big {
            let nv = v * 10 + (b - 48) as u32;
            if nv > max {
                too_big = true;
            } else {
                v = nv;
            }
        }
        i = i + 1;
    }
    assert(d.subrange(0, n - start) =~= d);
    assert forall|j: int| 0 <= j < d.len() implies is_digit(#[trigger] d[j]) by {
        assert(d[j] == s@[start + j]);
    }
    assert(literal_digits(s@) == Some(d));
    if too_big {
        None
    } else {
        Some(v)
    }
}

proof fn lemma_digits_monotone(d: Seq<u8>)
    requires
        d.len() > 0,
    ensures
        digits_value(d) >= digits_value(d.drop_last()),
{
    let p = digits_value(d.drop_last());
    assert(p * 10 >= p) by (nonlinear_arith);
}

/// The bytes of a reply line without surrounding white space.
pub open spec fn trimmed_bytes(line: Seq<char>) -> Seq<u8> {
    encode_utf8(trim(line))
}

/// The reply code and message of a line: the first three bytes (after
/// trimming) are the code, the bytes after them the message, which is
/// empty when the line has at most four bytes.
pub open spec fn reply_parts(line: Seq<char>) -> Option<(Option<nat>, Seq<char>)> {
    let b = trimmed_bytes(line);
    if b.len() < 3 {
        None
    } else {
        Some(
            (
                parse_unsigned(b.subrange(0, 3), 0xFFFF),
                if b.len() > 4 {
                    decode_utf8(b.subrange(3, b.len() as int))
                } else {
                    Seq::empty()
                },
            ),
        )
    }
}

/// Parses one reply line (as read, possibly with its line feed). The line
/// must not split a character at its third byte.
pub fn parse_reply_line(buf: &str) -> (res: Result<(ResponseCode, String), FtpError>)
    requires
        trimmed_bytes(buf@).len() > 3 ==> is_char_boundary(trimmed_bytes(buf@), 3),
    ensures
        match reply_parts(buf@) {
            None => res matches Err(FtpError::Unparsable(t)) && t@ == trim(buf@),
            Some((None, _)) => res matches Err(FtpError::BadNumber),
            Some((Some(code), message)) => res matches Ok((c, m)) && c.code == code && m@ == message,
        },
{
    let cs = chars_of(buf);
    let (a, b) = trim_bounds(cs.as_slice(), 0, cs.len());
    assert(cs@.subrange(0, cs@.len() as int) =~= cs@);
    let line = string_from_range(cs.as_slice(), a, b);
    let bytes = line.as_str().as_bytes();
    let n = bytes.len();
    if n < 3 {
        return Err(FtpError::Unparsable(line));
    }
    let code = match parse_unsigned_bytes(vstd::slice::slice_subrange(bytes, 0, 3), 0xFFFF) {
        Some(c) => c as u16,
        None => {
            return Err(FtpError::BadNumber);
        },
    };
    let message = if n > 4 {
        let rest = crate::bytes::copy_range(bytes, 3, n);
        proof {
            vstd::utf8::encode_utf8_valid_utf8(line@);
            vstd::utf8::valid_utf8_split(bytes@, 3);
        }
        match string_from_utf8(rest) {
            Some(m) => m,
            None => {
                return Err(FtpError::BadNumber);
            },
        }
    } else {
        String::new()
    };
    Ok((ResponseCode { code }, message))
}

/// How a multi-line reply continues after one more line.
pub enum MultiStep {
    /// The server reported an error: its message.
    Failed(String),
    /// More lines follow.
    More,
    /// The reply is complete: its final code and all its messages.
    Done(ResponseCode, Vec<String>),
}

/// Collects the messages of a reply that may span several lines.
pub struct MultiReply {
    lines: Vec<String>,
}

impl MultiReply {
    pub closed spec fn messages(&self) -> Seq<Seq<char>> {
        self.lines@.map_values(|l: String| l@)
    }

    pub fn new() -> (res: Self)
        ensures
            res.messages() == Seq::<Seq<char>>::empty(),
    {
        let res = MultiReply { lines: Vec::new() };
        assert(res.messages() =~= Seq::<Seq<char>>::empty());
        res
    }

    /// Takes the next line's code and message: an error code fails the
    /// reply; otherwise the message is kept, and the reply is complete
    /// unless the code is preliminary (1xx) or the message starts with `-`.
    pub fn feed(&mut self, code: ResponseCode, message: String) -> (res: MultiStep)
        ensures
            400 <= code.code < 600 ==> (res matches MultiStep::Failed(m) && m@ == message@)
                && final(self).messages() == old(self).messages(),
            !(400 <= code.code < 600) ==> final(self).messages() == old(self).messages().push(message@),
            !(400 <= code.code < 600) && !(100 <= code.code < 200) && !(message@.len() > 0
                && message@[0] == '-') ==> (res matches MultiStep::Done(c, ls) && c.code == code.code
                && ls@.map_values(|l: String| l@) == old(self).messages().push(message@)),
            !(400 <= code.code < 600) && ((100 <= code.code < 200) || (message@.len() > 0
                && message@[0] == '-')) ==> res is More,
    {
        if code.is_err() {
            return MultiStep::Failed(message);
        }
        let dash = {
            let mc = chars_of(message.as_str());
            mc.len() > 0 && mc[0] == '-'
        };
        self.lines.push(message);
        assert(self.messages() =~= old(self).messages().push(self.lines@.last()@));
        if !code.is_incomplete() && !dash {
            let lines = self.lines.clone();
            proof {
                assert(lines@.map_values(|l: String| l@) =~= self.messages()) by {
                    assert forall|i: int| 0 <= i < lines@.len() implies lines@[i]@ == self.lines@[i]@ by {
                        assert(vstd::pervasive::cloned(self.lines@[i], lines@[i]));
                    }
                }
            }
            MultiStep::Done(code, lines)
        } else {
            MultiStep::More
        }
    }
}

/// Splits `s` at every `c` (`str::split`): pieces may be empty.
pub open spec fn split_at_char(s: Seq<char>, c: char) -> Seq<Seq<char>>
    decreases s.len(),
{
    let p = next_index_of(s, c, 0);
    if p >= s.len() {
        seq![s]
    } else {
        proof {
            crate::text::lemma_next_index_of_bounds(s, c, 0);
        }
        seq![s.subrange(0, p)] + split_at_char(s.subrange(p + 1, s.len() as int), c)
    }
}

/// Index of the last `c` in `s[..end]`, if any.
pub open spec fn last_index_of(s: Seq<char>, c: char, end: int) -> Option<int>
    decreases end,
{
    if end <= 0 {
        None
    } else if s[end - 1] == c {
        Some(end - 1)
    } else {
        last_index_of(s, c, end - 1)
    }
}

/// The text between the last `(` before the last `)` and that `)`.
pub open spec fn pasv_inner(m: Seq<char>) -> Option<Seq<char>> {
    match last_index_of(m, ')', m.len() as int) {
        Some(close) => match last_index_of(m, '(', close) {
            Some(open) => Some(m.subrange(open + 1, close)),
            None => None,
        },
        None => None,
    }
}

/// The numbers of the pieces, stopping at the first that is not a byte.
pub open spec fn parse_pieces(pieces: Seq<Seq<char>>) -> Option<Seq<u8>>
    decreases pieces.len(),
{
    if pieces.len() == 0 {
        Some(Seq::empty())
    } else {
        match parse_pieces(pieces.drop_last()) {
            Some(prev) => match parse_unsigned(encode_utf8(pieces.last()), 255) {
                Some(v) => Some(prev.push(v as u8)),
                None => None,
            },
            None => None,
        }
    }
}

/// What the PASV reply parses to: `None` when the parentheses are missing
/// or there are not exactly six numbers, `Some(None)` when a number is not
/// a byte, otherwise the six numbers.
pub open spec fn pasv_numbers(m: Seq<char>) -> Option<Option<Seq<u8>>> {
    match pasv_inner(m) {
        Some(inner) => match parse_pieces(split_at_char(inner, ',')) {
            Some(ns) => if ns.len() == 6 {
                Some(Some(ns))
            } else {
                None
            },
            None => Some(None),
        },
        None => None,
    }
}

fn rfind(s: &[char], c: char, end: usize) -> (res: Option<usize>)
    requires
        end <= s@.len(),
    ensures
        res matches Some(i) ==> last_index_of(s@, c, end as int) == Some(i as int) && i < end,
        res is None ==> last_index_of(s@, c, end as int) is None,
{
    let mut e = end;
    while e > 0 && s[e - 1] != c
        invariant
            e <= end <= s@.len(),
            last_index_of(s@, c, e as int) == last_index_of(s@, c, end as int),
        decreases e,
    {
        e = e - 1;
    }
    if e == 0 {
        None
    } else {
        Some(e - 1)
    }
}

proof fn lemma_split_shift(s: Seq<char>, c: char, from: int)
    requires
        0 <= from <= s.len(),
    ensures
        split_at_char(s.subrange(from, s.len() as int), c) == ({
            let p = next_index_of(s, c, from);
            if p >= s.len() {
                seq![s.subrange(from, s.len() as int)]
            } else {
                seq![s.subrange(from, p)] + split_at_char(s.subrange(p + 1, s.len() as int), c)
            }
        }),
{
    let t = s.subrange(from, s.len() as int);
    crate::text::lemma_next_index_of_bounds(s, c, from);
    crate::text::lemma_next_index_of_bounds(t, c, 0);
    lemma_next_shift(s, c, from, 0);
    let p = next_index_of(s, c, from);
    if p < s.len() {
        assert(t.subrange(0, p - from) =~= s.subrange(from, p));
        assert(t.subrange(p - from + 1, t.len() as int) =~= s.subrange(p + 1, s.len() as int));
    }
}

proof fn lemma_next_shift(s: Seq<char>, c: char, from: int, k: int)
    requires
        0 <= from <= s.len(),
        0 <= k <= s.len() - from,
    ensures
        next_index_of(s.subrange(from, s.len() as int), c, k) + from == next_index_of(s, c, from + k),
    decreases s.len() - from - k,
{
    if k < s.len() - from {
        lemma_next_shift(s, c, from, k + 1);
    }
}

/// Parses the message of a reply to PASV into host and port.
pub fn parse_pasv(message: &str) -> (res: Result<([u8; 4], u16), FtpError>)
    ensures
        match pasv_numbers(message@) {
            None => res matches Err(FtpError::Unparsable(t)) && t@ == message@,
            Some(None) => res matches Err(FtpError::BadNumber),
            Some(Some(ns)) => res matches Ok((ip, port)) && ip@ == ns.subrange(0, 4) && port
                == ns[4] as nat * 256 + ns[5] as nat,
        },
{
    let cs = chars_of(message);
    let close = match rfind(cs.as_slice(), ')', cs.len()) {
        Some(i) => i,
        None => {
            return Err(FtpError::Unparsable(string_of(message)));
        },
    };
    let open = match rfind(cs.as_slice(), '(', close) {
        Some(i) => i,
        None => {
            return Err(FtpError::Unparsable(string_of(message)));
        },
    };
    let ghost inner = cs@.subrange(open + 1, close as int);
    assert(pasv_inner(message@) == Some(inner));
    let ghost all = split_at_char(inner, ',');
    let ghost whole = cs@.subrange(0, close as int);
    let prefix = vstd::slice::slice_subrange(cs.as_slice(), 0, close);
    let mut numbers: Vec<u8> = Vec::new();
    let mut pos: usize = open + 1;
    let ghost mut done: Seq<Seq<char>> = Seq::empty();
    assert(whole.subrange(pos as int, close as int) =~= inner);
    assert(all =~= done + split_at_char(whole.subrange(pos as int, close as int), ','));
    loop
        invariant_except_break
            open + 1 <= pos <= close,
            all == done + split_at_char(whole.subrange(pos as int, close as int), ','),
        invariant
            close < cs@.len(),
            cs@ == message@,
            prefix@ == whole,
            whole == cs@.subrange(0, close as int),
            all == split_at_char(inner, ','),
            pasv_inner(message@) == Some(inner),
            parse_pieces(done) == Some(numbers@),
        ensures
            all == done,
        decreases close - pos,
    {
        let end = crate::text::find_char(prefix, ',', pos);
        proof {
            lemma_split_shift(whole, ',', pos as int);
            crate::text::lemma_next_index_of_bounds(whole, ',', pos as int);
        }
        let piece = string_from_range(cs.as_slice(), pos, end);
        let ghost pc = piece@;
        assert(pc == whole.subrange(pos as int, end as int));
        let ghost rest = if end >= close {
            Seq::<Seq<char>>::empty()
        } else {
            split_at_char(whole.subrange(end + 1, close as int), ',')
        };
        assert(whole.subrange(end + 1, whole.len() as int) == whole.subrange(end + 1, close as int));
        assert(all =~= done.push(pc) + rest);
        let parsed = parse_unsigned_bytes(piece.as_str().as_bytes(), 255);
        let ghost done2 = done.push(pc);
        assert(done2.drop_last() =~= done);
        match parsed {
            Some(v) => {
                numbers.push(v as u8);
            },
            None => {
                proof {
                    assert(all.subrange(0, done2.len() as int) =~= done2);
                    lemma_parse_pieces_prefix_fail(done2, all);
                }
                return Err(FtpError::BadNumber);
            },
        }
        proof {
            done = done2;
        }
        if end >= close {
            assert(all =~= done);
            break;
        }
        pos = end + 1;
    }
    if numbers.len() == 6 {
        let port: u16 = (numbers[4] as u16) * 256 + (numbers[5] as u16);
        let ip: [u8; 4] = [numbers[0], numbers[1], numbers[2], numbers[3]];
        assert(ip@ =~= numbers@.subrange(0, 4));
        Ok((ip, port))
    } else {
        Err(FtpError::Unparsable(string_of(message)))
    }
}

proof fn lemma_parse_pieces_prefix_fail(prefix: Seq<Seq<char>>, all: Seq<Seq<char>>)
    requires
        parse_pieces(prefix) is None,
        prefix.len() <= all.len(),
        all.subrange(0, prefix.len() as int) == prefix,
    ensures
        parse_pieces(all) is None,
    decreases all.len(),
{
    if all.len() > prefix.len() {
        assert(all.drop_last().subrange(0, prefix.len() as int) =~= prefix);
        lemma_parse_pieces_prefix_fail(prefix, all.drop_last());
    } else {
        assert(all =~= prefix);
    }
}

} // verus!
