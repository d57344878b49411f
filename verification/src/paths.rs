//! Unix path names as `std::path::Path` reads them: the final component
//! and its extension.
use vstd::prelude::*;

verus! {

/// Whether `s[b..e]` is the component ".".
pub open spec fn is_dot(s: Seq<char>, b: int, e: int) -> bool {
    e == b + 1 && s[b] == '.'
}

/// Whether `s[b..e]` is the component "..".
pub open spec fn is_dot_dot(s: Seq<char>, b: int, e: int) -> bool {
    e == b + 2 && s[b] == '.' && s[b + 1] == '.'
}

/// Index just after the last character of `s[..end]` that is not a slash.
pub open spec fn strip_slashes(s: Seq<char>, end: int) -> int
    decreases end,
{
    if end <= 0 {
        0
    } else if s[end - 1] == '/' {
        strip_slashes(s, end - 1)
    } else {
        end
    }
}

/// Start of the component that ends at `e`: just after the previous slash.
pub open spec fn component_start(s: Seq<char>, e: int) -> int
    decreases e,
{
    if e <= 0 {
        0
    } else if s[e - 1] == '/' {
        e
    } else {
        component_start(s, e - 1)
    }
}

/// Removing trailing slashes stays within the string and stops after a
/// character that is not a slash.
pub proof fn lemma_strip_bounds(s: Seq<char>, end: int)
    requires
        0 <= end <= s.len(),
    ensures
        0 <= strip_slashes(s, end) <= end,
        strip_slashes(s, end) > 0 ==> s[strip_slashes(s, end) - 1] != '/',
    decreases end,
{
    if end > 0 && s[end - 1] == '/' {
        lemma_strip_bounds(s, end - 1);
    }
}

/// The last component of a path before `e` starts after a slash (or at
/// the start) and contains no slash.
pub proof fn lemma_start_bounds(s: Seq<char>, e: int)
    requires
        0 <= e <= s.len(),
    ensures
        0 <= component_start(s, e) <= e,
        forall|k: int| component_start(s, e) <= k < e ==> s[k] != '/',
        component_start(s, e) > 0 ==> s[component_start(s, e) - 1] == '/',
    decreases e,
{
    if e > 0 && s[e - 1] != '/' {
        lemma_start_bounds(s, e - 1);
    }
}

/// The bounds of the last component of `s[..end]` that is not ".", if it
/// is a normal component (not ".." and not absent).
pub open spec fn last_normal(s: Seq<char>, end: int) -> Option<(int, int)>
    decreases end,
{
    if end <= 0 || end > s.len() {
        None
    } else {
        let e = strip_slashes(s, end);
        if e == 0 {
            None
        } else {
            let b = component_start(s, e);
            if b >= e {
                None
            } else if is_dot(s, b, e) {
                proof {
                    lemma_strip_bounds(s, end);
                    lemma_start_bounds(s, e);
                }
                last_normal(s, b)
            } else if is_dot_dot(s, b, e) {
                None
            } else {
                Some((b, e))
            }
        }
    }
}

/// The final component of a path (`Path::file_name`).
pub open spec fn file_name(s: Seq<char>) -> Option<Seq<char>> {
    match last_normal(s, s.len() as int) {
        Some((b, e)) => Some(s.subrange(b, e)),
        None => None,
    }
}

/// Index of the last `.` in `s`, if any.
pub open spec fn last_dot(s: Seq<char>, end: int) -> Option<int>
    decreases end,
{
    if end <= 0 {
        None
    } else if s[end - 1] == '.' {
        Some(end - 1)
    } else {
        last_dot(s, end - 1)
    }
}

/// The extension of a file name: what follows its last dot, unless there is
/// no dot or the only dot starts the name.
pub open spec fn name_extension(name: Seq<char>) -> Option<Seq<char>> {
    match last_dot(name, name.len() as int) {
        Some(p) => if p == 0 {
            None
        } else {
            Some(name.subrange(p + 1, name.len() as int))
        },
        None => None,
    }
}

/// The extension of a path (`Path::extension`).
pub open spec fn extension(s: Seq<char>) -> Option<Seq<char>> {
    match file_name(s) {
        Some(n) => name_extension(n),
        None => None,
    }
}

fn strip(s: &[char], end: usize) -> (res: usize)
    requires
        end <= s@.len(),
    ensures
        res == strip_slashes(s@, end as int),
{
    let mut e = end;
    while e > 0 && s[e - 1] == '/'
        invariant
            e <= end <= s@.len(),
            strip_slashes(s@, e as int) == strip_slashes(s@, end as int),
        decreases e,
    {
        e = e - 1;
    }
    e
}

fn start_of(s: &[char], e: usize) -> (res: usize)
    requires
        e <= s@.len(),
    ensures
        res == component_start(s@, e as int),
{
    let mut b = e;
    while b > 0 && s[b - 1] != '/'
        invariant
            b <= e <= s@.len(),
            component_start(s@, b as int) == component_start(s@, e as int),
        decreases b,
    {
        b = b - 1;
    }
    b
}

/// The bounds of the final component of the path, if any.
pub fn file_name_bounds(s: &[char]) -> (res: Option<(usize, usize)>)
    ensures
        res matches Some((b, e)) ==> b <= e <= s@.len() && last_normal(s@, s@.len() as int) == Some(
            (b as int, e as int),
        ),
        res is None ==> last_normal(s@, s@.len() as int) is None,
{
    let mut end = s.len();
    loop
        invariant
            end <= s@.len(),
            last_normal(s@, end as int) == last_normal(s@, s@.len() as int),
        decreases end,
    {
        if end == 0 {
            return None;
        }
        let e = strip(s, end);
        proof {
            lemma_strip_bounds(s@, end as int);
        }
        if e == 0 {
            return None;
        }
        let b = start_of(s, e);
        proof {
            lemma_start_bounds(s@, e as int);
        }
        if b >= e {
            return None;
        }
        if e - b == 1 && s[b] == '.' {
            end = b;
        } else if e - b == 2 && s[b] == '.' && s[b + 1] == '.' {
            return None;
        } else {
            return Some((b, e));
        }
    }
}

/// The bounds of the extension of the path, if any.
pub fn extension_bounds(s: &[char]) -> (res: Option<(usize, usize)>)
    ensures
        res matches Some((b, e)) ==> b <= e <= s@.len() && extension(s@) == Some(
            s@.subrange(b as int, e as int),
        ),
        res is None ==> extension(s@) is None,
{
    match file_name_bounds(s) {
        None => None,
        Some((b, e)) => {
            let ghost name = s@.subrange(b as int, e as int);
            let mut p = e;
            while p > b && s[p - 1] != '.'
                invariant
                    b <= p <= e <= s@.len(),
                    name == s@.subrange(b as int, e as int),
                    last_dot(name, (p - b) as int) == last_dot(name, name.len() as int),
                decreases p,
            {
                p = p - 1;
            }
            if p == b {
                None
            } else if p - 1 == b {
                None
            } else {
                assert(name.subrange(p - b, name.len() as int) =~= s@.subrange(p as int, e as int));
                Some((p, e))
            }
        },
    }
}

/// The ASCII lowercase of a character; other characters are unchanged.
pub open spec fn ascii_lower(c: char) -> char {
    if 'A' <= c && c <= 'Z' {
        ((c as u32) + 32) as char
    } else {
        c
    }
}

/// Whether `s[b..e]` equals the lowercase ASCII word `word` ignoring ASCII
/// case.
pub open spec fn matches_lowercase(s: Seq<char>, word: Seq<char>) -> bool {
    s.len() == word.len() && forall|i: int| 0 <= i < s.len() ==> ascii_lower(#[trigger] s[i]) == word[i]
}

/// Whether `s[b..e]`, lowercased, equals `word`.
pub fn range_matches_lowercase(s: &[char], b: usize, e: usize, word: &str) -> (res: bool)
    requires
        b <= e <= s@.len(),
    ensures
        res == matches_lowercase(s@.subrange(b as int, e as int), word@),
{
    let w = crate::text::chars_of(word);
    if e - b != w.len() {
        return false;
    }
    let mut i: usize = 0;
    let n = w.len();
    while i < n
        invariant
            n == w@.len(),
            e - b == n,
            b <= e <= s@.len(),
            i <= n,
            w@ == word@,
            forall|j: int| 0 <= j < i ==> ascii_lower(#[trigger] s@[b + j]) == w@[j],
        decreases n - i,
    {
        let c = s[b + i];
        let lc = if 'A' <= c && c <= 'Z' {
            char_from_ascii_lower(c)
        } else {
            c
        };
        if lc != w[i] {
            assert(ascii_lower(s@.subrange(b as int, e as int)[i as int]) != word@[i as int]);
            return false;
        }
        i = i + 1;
    }
    assert forall|j: int| 0 <= j < n implies ascii_lower(#[trigger] s@.subrange(b as int, e as int)[j]) == word@[j] by {
        assert(s@.subrange(b as int, e as int)[j] == s@[b + j]);
    }
    true
}

fn char_from_ascii_lower(c: char) -> (res: char)
    requires
        'A' <= c && c <= 'Z',
    ensures
        res == ((c as u32) + 32) as char,
{
    let u = (c as u8) + 32;
    assert(u as u32 == (c as u32) + 32);
    u as char
}

} // verus!
