//! The command a remote-execution client sends: the program and its
//! arguments, split from a command line at white space.
use vstd::prelude::*;
use crate::text::{chars_of, is_whitespace, skip_ws, spec_is_whitespace, push_str, string_of};

verus! {

/// A program with its arguments.
pub struct CliCommand<'a> {
    pub program: &'a str,
    pub args: Vec<&'a str>,
}

/// Index of the first white-space character of `s` at or after `from`, or
/// `s.len()`.
pub open spec fn next_ws(s: Seq<char>, from: int) -> int
    decreases s.len() - from,
{
    if from >= s.len() {
        s.len() as int
    } else if spec_is_whitespace(s[from]) {
        from
    } else {
        next_ws(s, from + 1)
    }
}

/// Skipping white space stays within the string and stops at a character
/// that is not white space.
pub proof fn lemma_skip_ws_range(s: Seq<char>, from: int)
    requires
        0 <= from <= s.len(),
    ensures
        from <= skip_ws(s, from) <= s.len(),
        skip_ws(s, from) < s.len() ==> !spec_is_whitespace(s[skip_ws(s, from)]),
    decreases s.len() - from,
{
    if from < s.len() && spec_is_whitespace(s[from]) {
        lemma_skip_ws_range(s, from + 1);
    }
}

/// The word starting at `from` ends at the next white space (or the end),
/// and is not empty when it starts with a character that is not white
/// space.
pub proof fn lemma_next_ws_range(s: Seq<char>, from: int)
    requires
        0 <= from <= s.len(),
    ensures
        from <= next_ws(s, from) <= s.len(),
        from < s.len() && !spec_is_whitespace(s[from]) ==> next_ws(s, from) > from,
        forall|k: int| from <= k < next_ws(s, from) ==> !spec_is_whitespace(#[trigger] s[k]),
    decreases s.len() - from,
{
    if from < s.len() && !spec_is_whitespace(s[from]) {
        lemma_next_ws_range(s, from + 1);
    }
}

/// The words of `s[from..]`: maximal runs of non-white-space characters
/// (`str::split_whitespace`).
pub open spec fn words_from(s: Seq<char>, from: int) -> Seq<Seq<char>>
    decreases s.len() - from,
{
    if from < 0 || from >= s.len() {
        Seq::empty()
    } else {
        let a = skip_ws(s, from);
        if a >= s.len() {
            Seq::empty()
        } else {
            proof {
                lemma_skip_ws_range(s, from);
                lemma_next_ws_range(s, a);
            }
            let b = next_ws(s, a);
            seq![s.subrange(a, b)] + words_from(s, b)
        }
    }
}

/// The words of `s`.
pub open spec fn words(s: Seq<char>) -> Seq<Seq<char>> {
    words_from(s, 0)
}

impl<'a> CliCommand<'a> {
    pub fn new(exec: &'a str, args: Vec<&'a str>) -> (res: Self)
        ensures
            res.program@ == exec@,
            res.args@ == args@,
    {
        Self { program: exec, args: args }
    }

    /// The command of a command line: its first word is the program (empty
    /// when there is none) and the other words are the arguments.
    pub fn from_command_line(line: &'a str) -> (res: Self)
        ensures
            res.program@ == if words(line@).len() > 0 {
                words(line@)[0]
            } else {
                Seq::<char>::empty()
            },
            res.args@.map_values(|a: &'a str| a@) == if words(line@).len() > 0 {
                words(line@).subrange(1, words(line@).len() as int)
            } else {
                Seq::<Seq<char>>::empty()
            },
    {
        let cs = chars_of(line);
        let n = cs.len();
        let mut exec: &'a str = "";
        let mut args: Vec<&'a str> = Vec::new();
        let mut first = true;
        let mut pos: usize = 0;
        let ghost s = line@;
        let ghost mut done: Seq<Seq<char>> = Seq::empty();
        proof {
            reveal_strlit("");
        }
        while pos < n
            invariant
                cs@ == s,
                s == line@,
                n == s.len(),
                pos <= n,
                words(s) == done + words_from(s, pos as int),
                first <==> done.len() == 0,
                first ==> exec@ == Seq::<char>::empty() && args@.len() == 0,
                !first ==> exec@ == done[0] && args@.map_values(|a: &'a str| a@) == done.subrange(
                    1,
                    done.len() as int,
                ),
            decreases n - pos,
        {
            let mut a = pos;
            while a < n && is_whitespace(cs[a])
                invariant
                    pos <= a <= n,
                    n == s.len(),
                    cs@ == s,
                    skip_ws(s, a as int) == skip_ws(s, pos as int),
                decreases n - a,
            {
                a = a + 1;
            }
            if a >= n {
                proof {
                    assert(words_from(s, pos as int) == Seq::<Seq<char>>::empty());
                    assert(words_from(s, n as int) == Seq::<Seq<char>>::empty());
                }
                pos = n;
            } else {
                let mut b = a;
                while b < n && !is_whitespace(cs[b])
                    invariant
                        a <= b <= n,
                        n == s.len(),
                        cs@ == s,
                        next_ws(s, b as int) == next_ws(s, a as int),
                    decreases n - b,
                {
                    b = b + 1;
                }
                let word = line.substring_char(a, b);
                let ghost w = s.subrange(a as int, b as int);
                proof {
                    assert(words_from(s, pos as int) == seq![w] + words_from(s, b as int));
                }
                if first {
                    exec = word;
                    first = false;
                } else {
                    args.push(word);
                }
                proof {
                    let done2 = done.push(w);
                    assert(done2.subrange(1, done2.len() as int) =~= if done.len() == 0 {
                        Seq::<Seq<char>>::empty()
                    } else {
                        done.subrange(1, done.len() as int).push(w)
                    });
                    assert(args@.map_values(|x: &'a str| x@) =~= done2.subrange(1, done2.len() as int));
                    assert(done2 + words_from(s, b as int) =~= done + (seq![w] + words_from(s, b as int)));
                    done = done2;
                }
                pos = b;
            }
        }
        proof {
            assert(words_from(s, pos as int) == Seq::<Seq<char>>::empty());
            assert(words(s) =~= done);
        }
        CliCommand { program: exec, args }
    }
}

/// Which output of the remote program a line came from.
#[derive(Clone, Copy, Debug, PartialEq, Eq, Structural)]
pub enum OutputStream {
    Stdout,
    Stderr,
}

/// The tag the server puts before a line of the program's output.
pub open spec fn stream_tag(stream: OutputStream) -> Seq<char> {
    match stream {
        OutputStream::Stdout => "[STDOUT] "@,
        OutputStream::Stderr => "[STDERR] "@,
    }
}

/// A line of the program's output as the server forwards it: the tag, the
/// line, and a line feed.
pub fn tagged_line(stream: OutputStream, line: &str) -> (res: String)
    ensures
        res@ == stream_tag(stream) + line@ + "\n"@,
{
    let mut s = match stream {
        OutputStream::Stdout => string_of("[STDOUT] "),
        OutputStream::Stderr => string_of("[STDERR] "),
    };
    push_str(&mut s, line);
    push_str(&mut s, "\n");
    s
}

/// The report of a failure: `[ERROR] ` and the error's text.
pub fn error_report(error: &str) -> (res: String)
    ensures
        res@ == "[ERROR] "@ + error@,
{
    let mut s = string_of("[ERROR] ");
    push_str(&mut s, error);
    s
}

/// The last line the server sends: `[STATUS] ` and the exit status.
pub fn status_report(status: &str) -> (res: String)
    ensures
        res@ == "[STATUS] "@ + status@,
{
    let mut s = string_of("[STATUS] ");
    push_str(&mut s, status);
    s
}

} // verus!
