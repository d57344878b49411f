//! Verified text helpers: strings as sequences of characters.
use vstd::prelude::*;

verus! {

/// Appends a character to a string (`String::push`).
#[verifier::external_body]
pub(crate) fn push_char(s: &mut String, c: char)
    ensures
        final(s)@ == old(s)@.push(c),
{
    s.push(c)
}

/// The characters of a string slice, in order.
pub fn chars_of(s: &str) -> (res: Vec<char>)
    ensures
        res@ == s@,
{
    let mut v: Vec<char> = Vec::new();
    for c in iter: s.chars()
        invariant
            iter.seq() == s@,
            v@ == iter.seq().take(iter.index() as int),
    {
        v.push(c);
    }
    v
}

/// A string holding the characters of `cs`.
pub fn string_from_chars(cs: &[char]) -> (res: String)
    ensures
        res@ == cs@,
{
    let mut s = String::new();
    let n = cs.len();
    let mut i: usize = 0;
    while i < n
        invariant
            n == cs@.len(),
            i <= n,
            s@ == cs@.subrange(0, i as int),
        decreases n - i,
    {
        push_char(&mut s, cs[i]);
        i = i + 1;
        assert(cs@.subrange(0, i as int) =~= cs@.subrange(0, (i - 1) as int).push(cs@[i - 1]));
    }
    assert(cs@.subrange(0, n as int) =~= cs@);
    s
}

/// The Unicode `White_Space` characters, as `char::is_whitespace` decides.
pub open spec fn spec_is_whitespace(c: char) -> bool {
    let u = c as u32;
    (0x9 <= u <= 0xD) || u == 0x20 || u == 0x85 || u == 0xA0 || u == 0x1680 || (0x2000 <= u
        <= 0x200A) || u == 0x2028 || u == 0x2029 || u == 0x202F || u == 0x205F || u == 0x3000
}

/// Whether `c` is Unicode white space.
pub fn is_whitespace(c: char) -> (res: bool)
    ensures
        res == spec_is_whitespace(c),
{
    let u = c as u32;
    (0x9 <= u && u <= 0xD) || u == 0x20 || u == 0x85 || u == 0xA0 || u == 0x1680 || (0x2000 <= u
        && u <= 0x200A) || u == 0x2028 || u == 0x2029 || u == 0x202F || u == 0x205F || u == 0x3000
}

/// Index of the first character of `s` at or after `from` that is not
/// white space, or `s.len()`.
pub open spec fn skip_ws(s: Seq<char>, from: int) -> int
    decreases s.len() - from,
{
    if from >= s.len() {
        s.len() as int
    } else if spec_is_whitespace(s[from]) {
        skip_ws(s, from + 1)
    } else {
        from
    }
}

/// Index just after the last character of `s[..to]` that is not white
/// space, or 0.
pub open spec fn trim_end_at(s: Seq<char>, to: int) -> int
    decreases to,
{
    if to <= 0 {
        0
    } else if spec_is_whitespace(s[to - 1]) {
        trim_end_at(s, to - 1)
    } else {
        to
    }
}

/// `s` without leading and trailing white space (`str::trim`).
pub open spec fn trim(s: Seq<char>) -> Seq<char> {
    let a = skip_ws(s, 0);
    let b = trim_end_at(s, s.len() as int);
    if a < b {
        s.subrange(a, b)
    } else {
        Seq::empty()
    }
}

proof fn lemma_skip_ws_bounds(s: Seq<char>, from: int)
    requires
        0 <= from <= s.len(),
    ensures
        from <= skip_ws(s, from) <= s.len(),
    decreases s.len() - from,
{
    if from < s.len() && spec_is_whitespace(s[from]) {
        lemma_skip_ws_bounds(s, from + 1);
    }
}

proof fn lemma_trim_end_bounds(s: Seq<char>, to: int)
    requires
        0 <= to <= s.len(),
    ensures
        0 <= trim_end_at(s, to) <= to,
    decreases to,
{
    if to > 0 && spec_is_whitespace(s[to - 1]) {
        lemma_trim_end_bounds(s, to - 1);
    }
}

/// The bounds of `trim(s[from..to])` within `s`: characters from the
/// first to the last non-white-space one.
pub fn trim_bounds(s: &[char], from: usize, to: usize) -> (res: (usize, usize))
    requires
        from <= to <= s@.len(),
    ensures
        res.0 <= res.1 <= to,
        from <= res.0,
        s@.subrange(res.0 as int, res.1 as int) == trim(s@.subrange(from as int, to as int)),
{
    let ghost t = s@.subrange(from as int, to as int);
    let mut a = from;
    while a < to && is_whitespace(s[a])
        invariant
            from <= a <= to,
            to <= s@.len(),
            t == s@.subrange(from as int, to as int),
            skip_ws(t, (a - from) as int) == skip_ws(t, 0),
        decreases to - a,
    {
        a = a + 1;
    }
    let mut b = to;
    while b > a && is_whitespace(s[b - 1])
        invariant
            from <= a <= b <= to,
            to <= s@.len(),
            t == s@.subrange(from as int, to as int),
            trim_end_at(t, (b - from) as int) == trim_end_at(t, t.len() as int),
        decreases b,
    {
        b = b - 1;
    }
    proof {
        lemma_skip_ws_bounds(t, 0);
        lemma_trim_end_bounds(t, t.len() as int);
        let sa = skip_ws(t, 0);
        let eb = trim_end_at(t, t.len() as int);
        if a == to {
            assert(sa == t.len());
        } else {
            assert(sa == a - from);
        }
        if b > a {
            assert(eb == b - from);
        } else {
            // every character of t[..b - from] is white space or before a
            assert(b == a);
            if eb > sa {
                // eb ends in a non-space at index eb - 1 >= sa, yet eb <= b - from = a - from
                lemma_trim_end_le(t, (b - from) as int);
                assert(false);
            }
        }
        if a < b {
            assert(s@.subrange(a as int, b as int) =~= t.subrange(sa, eb));
        } else {
            assert(s@.subrange(a as int, b as int) =~= Seq::<char>::empty());
        }
    }
    (a, if b >= a { b } else { a })
}

proof fn lemma_trim_end_le(s: Seq<char>, to: int)
    requires
        0 <= to <= s.len(),
    ensures
        trim_end_at(s, to) <= to,
    decreases to,
{
    if to > 0 && spec_is_whitespace(s[to - 1]) {
        lemma_trim_end_le(s, to - 1);
    }
}

/// Index of the first `c` in `s` at or after `from`, or `s.len()`.
pub open spec fn next_index_of(s: Seq<char>, c: char, from: int) -> int
    decreases s.len() - from,
{
    if from >= s.len() {
        s.len() as int
    } else if s[from] == c {
        from
    } else {
        next_index_of(s, c, from + 1)
    }
}

/// The next occurrence of `c` from `from` is within the string, holds `c`
/// when it is not the end, and no earlier position from `from` holds `c`.
pub proof fn lemma_next_index_of_bounds(s: Seq<char>, c: char, from: int)
    requires
        0 <= from <= s.len(),
    ensures
        from <= next_index_of(s, c, from) <= s.len(),
        next_index_of(s, c, from) < s.len() ==> s[next_index_of(s, c, from)] == c,
        forall|k: int| from <= k < next_index_of(s, c, from) ==> s[k] != c,
    decreases s.len() - from,
{
    if from < s.len() && s[from] != c {
        lemma_next_index_of_bounds(s, c, from + 1);
    }
}

/// The line of `s` that starts at `from`: up to the next line feed, without
/// it and without a carriage return just before it.
pub open spec fn line_at(s: Seq<char>, from: int) -> Seq<char> {
    let e = next_index_of(s, '\n', from);
    let l = s.subrange(from, e);
    if e < s.len() && l.len() > 0 && l.last() == '\r' {
        l.drop_last()
    } else {
        l
    }
}

/// The lines of `s` from position `from` on, as `str::lines` yields them:
/// a final line feed does not start an empty last line.
pub open spec fn lines_from(s: Seq<char>, from: int) -> Seq<Seq<char>>
    decreases s.len() - from,
{
    if from >= s.len() || from < 0 {
        Seq::empty()
    } else {
        let e = next_index_of(s, '\n', from);
        if e >= s.len() {
            seq![line_at(s, from)]
        } else {
            proof {
                lemma_next_index_of_bounds(s, '\n', from);
            }
            seq![line_at(s, from)] + lines_from(s, e + 1)
        }
    }
}

/// The lines of `s`.
pub open spec fn lines(s: Seq<char>) -> Seq<Seq<char>> {
    lines_from(s, 0)
}

/// Finds the line starting at `from`: returns where its text ends and
/// where the next line starts.
pub fn line_bounds(s: &[char], from: usize) -> (res: (usize, usize))
    requires
        from < s@.len(),
    ensures
        from <= res.0 <= res.1 <= s@.len(),
        s@.subrange(from as int, res.0 as int) == line_at(s@, from as int),
        res.1 == if next_index_of(s@, '\n', from as int) >= s@.len() {
            s@.len() as int
        } else {
            next_index_of(s@, '\n', from as int) + 1
        },
{
    let n = s.len();
    let mut e = from;
    while e < n && s[e] != '\n'
        invariant
            from <= e <= n,
            n == s@.len(),
            next_index_of(s@, '\n', e as int) == next_index_of(s@, '\n', from as int),
        decreases n - e,
    {
        e = e + 1;
    }
    let next = if e < n { e + 1 } else { n };
    let end = if e < n && e > from && s[e - 1] == '\r' { e - 1 } else { e };
    proof {
        let l = s@.subrange(from as int, e as int);
        if e < n && e > from && s@[e - 1] == '\r' {
            assert(s@.subrange(from as int, end as int) =~= l.drop_last());
        }
    }
    (end, next)
}

/// A string holding `s[from..to]`.
pub fn string_from_range(s: &[char], from: usize, to: usize) -> (res: String)
    requires
        from <= to <= s@.len(),
    ensures
        res@ == s@.subrange(from as int, to as int),
{
    string_from_chars(vstd::slice::slice_subrange(s, from, to))
}

/// Index of the first character of `s` at or after `from` that is not `c`.
pub open spec fn skip_char(s: Seq<char>, c: char, from: int) -> int
    decreases s.len() - from,
{
    if from >= s.len() {
        s.len() as int
    } else if s[from] == c {
        skip_char(s, c, from + 1)
    } else {
        from
    }
}

/// Skips the characters equal to `c` from `from` on.
pub fn skip_while_eq(s: &[char], c: char, from: usize) -> (res: usize)
    requires
        from <= s@.len(),
    ensures
        from <= res <= s@.len(),
        res == skip_char(s@, c, from as int),
{
    let n = s.len();
    let mut i = from;
    while i < n && s[i] == c
        invariant
            from <= i <= n,
            n == s@.len(),
            skip_char(s@, c, i as int) == skip_char(s@, c, from as int),
        decreases n - i,
    {
        i = i + 1;
    }
    i
}

/// Finds the first `c` at or after `from`.
pub fn find_char(s: &[char], c: char, from: usize) -> (res: usize)
    requires
        from <= s@.len(),
    ensures
        res == next_index_of(s@, c, from as int),
        from <= res <= s@.len(),
{
    let n = s.len();
    let mut i = from;
    while i < n && s[i] != c
        invariant
            from <= i <= n,
            n == s@.len(),
            next_index_of(s@, c, i as int) == next_index_of(s@, c, from as int),
        decreases n - i,
    {
        i = i + 1;
    }
    i
}

/// Whether `prefix` starts `s`.
pub open spec fn starts_with(s: Seq<char>, prefix: Seq<char>) -> bool {
    prefix.len() <= s.len() && s.subrange(0, prefix.len() as int) == prefix
}

/// Whether `p` occurs in `s` at position `at`.
pub fn occurs_at(s: &[char], p: &[char], at: usize) -> (res: bool)
    requires
        at <= s@.len(),
    ensures
        res == starts_with(s@.subrange(at as int, s@.len() as int), p@),
{
    let ghost t = s@.subrange(at as int, s@.len() as int);
    if p.len() > s.len() - at {
        return false;
    }
    let n = p.len();
    let mut i: usize = 0;
    while i < n
        invariant
            n == p@.len(),
            at + n <= s.len(),
            t == s@.subrange(at as int, s@.len() as int),
            i <= n,
            forall|j: int| 0 <= j < i ==> s@[at + j] == p@[j],
        decreases n - i,
    {
        if s[at + i] != p[i] {
            assert(t.subrange(0, n as int)[i as int] != p@[i as int]);
            return false;
        }
        i = i + 1;
    }
    assert(t.subrange(0, n as int) =~= p@);
    true
}

/// `s` without all the leading repetitions of `p` (`str::trim_start_matches`).
pub open spec fn strip_all(s: Seq<char>, p: Seq<char>) -> Seq<char>
    decreases s.len(),
{
    if p.len() > 0 && starts_with(s, p) {
        strip_all(s.subrange(p.len() as int, s.len() as int), p)
    } else {
        s
    }
}

/// The position after all the leading repetitions of `p` in `s[from..]`.
pub fn strip_all_from(s: &[char], p: &[char], from: usize) -> (res: usize)
    requires
        from <= s@.len(),
    ensures
        from <= res <= s@.len(),
        s@.subrange(res as int, s@.len() as int) == strip_all(s@.subrange(from as int, s@.len() as int), p@),
{
    let mut pos = from;
    let n = s.len();
    while p.len() > 0 && occurs_at(s, p, pos)
        invariant
            from <= pos <= n,
            n == s@.len(),
            strip_all(s@.subrange(pos as int, n as int), p@) == strip_all(s@.subrange(from as int, n as int), p@),
        decreases n - pos,
    {
        let ghost t = s@.subrange(pos as int, n as int);
        assert(t.subrange(p@.len() as int, t.len() as int) =~= s@.subrange(pos + p@.len(), n as int));
        pos = pos + p.len();
    }
    pos
}

/// The characters of each string.
pub open spec fn views(v: Seq<String>) -> Seq<Seq<char>> {
    v.map_values(|x: String| x@)
}

/// Whether two string slices hold the same characters.
pub fn str_eq(a: &str, b: &str) -> (res: bool)
    ensures
        res == (a@ == b@),
{
    let r = crate::bytes::bytes_eq(a.as_bytes(), b.as_bytes());
    proof {
        vstd::utf8::encode_utf8_decode_utf8(a@);
        vstd::utf8::encode_utf8_decode_utf8(b@);
    }
    r
}

/// The ASCII digit for `d < 10`.
pub open spec fn digit_char(d: nat) -> char {
    if d == 0 {
        '0'
    } else if d == 1 {
        '1'
    } else if d == 2 {
        '2'
    } else if d == 3 {
        '3'
    } else if d == 4 {
        '4'
    } else if d == 5 {
        '5'
    } else if d == 6 {
        '6'
    } else if d == 7 {
        '7'
    } else if d == 8 {
        '8'
    } else {
        '9'
    }
}

/// The decimal notation of `n`, without leading zeros.
pub open spec fn decimal(n: nat) -> Seq<char>
    decreases n,
{
    if n < 10 {
        seq![digit_char(n)]
    } else {
        decimal(n / 10).push(digit_char(n % 10))
    }
}

/// The decimal notation of a signed integer: a minus sign before the
/// magnitude when negative.
pub open spec fn decimal_signed(n: int) -> Seq<char> {
    if n < 0 {
        seq!['-'] + decimal((-n) as nat)
    } else {
        decimal(n as nat)
    }
}

fn digit(d: u64) -> (c: char)
    requires
        d < 10,
    ensures
        c == digit_char(d as nat),
{
    if d == 0 {
        '0'
    } else if d == 1 {
        '1'
    } else if d == 2 {
        '2'
    } else if d == 3 {
        '3'
    } else if d == 4 {
        '4'
    } else if d == 5 {
        '5'
    } else if d == 6 {
        '6'
    } else if d == 7 {
        '7'
    } else if d == 8 {
        '8'
    } else {
        '9'
    }
}

/// Appends the decimal notation of `n` to `s`.
pub fn push_decimal(s: &mut String, n: u64)
    ensures
        final(s)@ == old(s)@ + decimal(n as nat),
    decreases n,
{
    if n < 10 {
        push_char(s, digit(n));
        assert(decimal(n as nat) == seq![digit_char(n as nat)]);
    } else {
        push_decimal(s, n / 10);
        push_char(s, digit(n % 10));
    }
}

/// Appends the decimal notation of a byte to `s`.
pub fn push_decimal_u8(s: &mut String, n: u8)
    ensures
        final(s)@ == old(s)@ + decimal(n as nat),
{
    push_decimal(s, n as u64);
}

/// Appends the decimal notation of a signed `n` to `s`.
pub fn push_decimal_signed(s: &mut String, n: i64)
    ensures
        final(s)@ == old(s)@ + decimal_signed(n as int),
{
    if n < 0 {
        push_char(s, '-');
        let magnitude: u64 = ((-(n + 1)) as u64) + 1;
        push_decimal(s, magnitude);
    } else {
        push_decimal(s, n as u64);
    }
}

/// The string of a literal.
pub fn string_of(lit: &str) -> (res: String)
    ensures
        res@ == lit@,
{
    lit.to_owned()
}

/// Appends a string slice to a string.
pub fn push_str(s: &mut String, t: &str)
    ensures
        final(s)@ == old(s)@ + t@,
{
    s.append(t);
}

/// `s` padded on the right with spaces to at least `width` characters, as
/// the `{:<width}` format does.
pub open spec fn pad_right(s: Seq<char>, width: nat) -> Seq<char> {
    if s.len() >= width {
        s
    } else {
        s + Seq::new((width - s.len()) as nat, |i: int| ' ')
    }
}

/// Appends `t` padded on the right with spaces to at least `width`
/// characters.
pub fn push_padded(s: &mut String, t: &str, width: usize)
    ensures
        final(s)@ == old(s)@ + pad_right(t@, width as nat),
{
    push_str(s, t);
    let n = chars_of(t).len();
    let ghost base = old(s)@ + t@;
    let mut k: usize = n;
    while k < width
        invariant
            n == t@.len(),
            n <= k,
            k <= width || k == n,
            s@ == base + Seq::new((k - n) as nat, |i: int| ' '),
        decreases width - k,
    {
        push_char(s, ' ');
        k = k + 1;
        assert(s@ =~= base + Seq::new((k - n) as nat, |i: int| ' '));
    }
    if n >= width {
        assert(k == n);
        assert(Seq::new((k - n) as nat, |i: int| ' ') =~= Seq::<char>::empty());
        assert(s@ =~= old(s)@ + t@);
    } else {
        assert(s@ =~= old(s)@ + pad_right(t@, width as nat));
    }
}

/// The string of the bytes when they are valid UTF-8 (`String::from_utf8`,
/// whose documentation promises an error exactly on invalid UTF-8).
#[verifier::external_body]
pub(crate) fn string_from_utf8(bytes: Vec<u8>) -> (res: Option<String>)
    ensures
        res is Some <==> vstd::utf8::valid_utf8(bytes@),
        res matches Some(s) ==> s@ == vstd::utf8::decode_utf8(bytes@),
{
    String::from_utf8(bytes).ok()
}

} // verus!
