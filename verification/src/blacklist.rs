//! Blocked addresses of the caching proxy: an address is blocked when it
//! ends with a listed entry.
use vstd::prelude::*;
use crate::strmap::StrMap;
use vstd::string::StringSliceAdditionalSpecFns;
use crate::text::{chars_of, line_at, line_bounds, lines, lines_from, next_index_of, string_from_chars, trim, trim_bounds};

verus! {

/// Whether `suffix` is a byte-wise suffix of `s`.
pub open spec fn is_suffix(suffix: Seq<u8>, s: Seq<u8>) -> bool {
    suffix.len() <= s.len() && s.subrange(s.len() - suffix.len(), s.len() as int) == suffix
}

/// The set of blocked address suffixes.
pub struct BlackList {
    addresses: StrMap<()>,
}

/// The entries a blacklist file adds: its lines without surrounding white
/// space, except the empty ones.
pub open spec fn file_entries(content: Seq<char>) -> Set<Seq<char>> {
    Set::new(|e: Seq<char>| e.len() > 0 && exists|i: int| 0 <= i < lines(content).len() && trim(#[trigger] lines(content)[i]) == e)
}

impl BlackList {
    /// The listed entries.
    pub closed spec fn entries(&self) -> Set<Seq<char>> {
        self.addresses@.dom()
    }

    pub closed spec fn wf(&self) -> bool {
        self.addresses.wf()
    }

    /// An empty blacklist.
    pub fn new() -> (res: Self)
        ensures
            res.wf(),
            res.entries() == Set::<Seq<char>>::empty(),
    {
        let res = BlackList { addresses: StrMap::new() };
        assert(res.entries() =~= Set::<Seq<char>>::empty());
        res
    }

    /// Whether `address` ends, byte for byte, with a listed entry.
    pub fn contains_address(&self, address: &str) -> (res: bool)
        requires
            self.wf(),
        ensures
            res == exists|e: Seq<char>| #[trigger]
                self.entries().contains(e) && is_suffix(
                    vstd::utf8::encode_utf8(e),
                    address.spec_bytes(),
                ),
    {
        proof {
            self.addresses.lemma_entries();
        }
        let n = self.addresses.len();
        let bytes = address.as_bytes();
        let mut i: usize = 0;
        while i < n
            invariant
                self.wf(),
                n == self.addresses.keys().len(),
                i <= n,
                bytes@ == address.spec_bytes(),
                forall|j: int| 0 <= j < i ==> !is_suffix(
                    vstd::utf8::encode_utf8(#[trigger] self.addresses.keys()[j]),
                    bytes@,
                ),
            decreases n - i,
        {
            let banned = self.addresses.key_at(i);
            if crate::bytes::ends_with(bytes, banned.as_str().as_bytes()) {
                proof {
                    self.addresses.lemma_entries();
                    assert(self.entries().contains(self.addresses.keys()[i as int]));
                }
                return true;
            }
            i = i + 1;
        }
        proof {
            self.addresses.lemma_entries();
            assert forall|e: Seq<char>| #[trigger] self.entries().contains(e) implies !is_suffix(
                vstd::utf8::encode_utf8(e),
                address.spec_bytes(),
            ) by {
                assert(self.addresses.keys().contains(e));
                let j = choose|j: int| 0 <= j < n && self.addresses.keys()[j] == e;
            }
        }
        false
    }

    /// Lists `address`.
    pub fn add_address(&mut self, address: &str)
        requires
            old(self).wf(),
        ensures
            final(self).wf(),
            final(self).entries() == old(self).entries().insert(address@),
    {
        self.addresses.insert(address.to_owned(), ());
        assert(self.entries() =~= old(self).entries().insert(address@));
    }

    /// Lists every line of a blacklist file, without surrounding white
    /// space, skipping empty ones.
    pub fn add_from_text(&mut self, content: &str)
        requires
            old(self).wf(),
        ensures
            final(self).wf(),
            final(self).entries() == old(self).entries().union(file_entries(content@)),
    {
        let cs = chars_of(content);
        let n = cs.len();
        let ghost s = content@;
        let ghost start = self.entries();
        let mut pos: usize = 0;
        let ghost mut done: Seq<Seq<char>> = Seq::empty();
        while pos < n
            invariant
                self.wf(),
                cs@ == s,
                n == s.len(),
                pos <= n,
                lines(s) == done + lines_from(s, pos as int),
                self.entries() == start.union(
                    Set::new(|e: Seq<char>| e.len() > 0 && exists|i: int| 0 <= i < done.len() && trim(#[trigger] done[i]) == e),
                ),
            decreases n - pos,
        {
            let (end, next) = line_bounds(cs.as_slice(), pos);
            let (a, b) = trim_bounds(cs.as_slice(), pos, end);
            let ghost line = line_at(s, pos as int);
            proof {
                crate::text::lemma_next_index_of_bounds(s, '\n', pos as int);
                let e = next_index_of(s, '\n', pos as int);
                if e >= s.len() {
                    assert(lines_from(s, pos as int) == seq![line]);
                    assert(lines_from(s, next as int) == Seq::<Seq<char>>::empty());
                    assert(lines_from(s, pos as int) =~= seq![line] + lines_from(s, next as int));
                } else {
                    assert(lines_from(s, pos as int) == seq![line] + lines_from(s, next as int));
                }
            }
            let ghost before = self.entries();
            let ghost done2 = done.push(line);
            if a < b {
                let entry = string_from_chars(vstd::slice::slice_subrange(cs.as_slice(), a, b));
                self.add_address(entry.as_str());
            }
            proof {
                let old_set = Set::new(|e: Seq<char>| e.len() > 0 && exists|i: int| 0 <= i < done.len() && trim(#[trigger] done[i]) == e);
                let new_set = Set::new(|e: Seq<char>| e.len() > 0 && exists|i: int| 0 <= i < done2.len() && trim(#[trigger] done2[i]) == e);
                assert forall|e: Seq<char>| #[trigger] new_set.contains(e) == (old_set.contains(e) || (e.len() > 0 && trim(line) == e)) by {
                    if new_set.contains(e) {
                        let i = choose|i: int| 0 <= i < done2.len() && trim(#[trigger] done2[i]) == e;
                        if i < done.len() {
                            assert(done2[i] == done[i]);
                        }
                    }
                    if old_set.contains(e) {
                        let i = choose|i: int| 0 <= i < done.len() && trim(#[trigger] done[i]) == e;
                        assert(done2[i] == done[i]);
                    }
                    if e.len() > 0 && trim(line) == e {
                        assert(done2[done.len() as int] == line);
                    }
                }
                assert(self.entries() =~= start.union(new_set));
                assert(done2 + lines_from(s, next as int) =~= done + (seq![line] + lines_from(s, next as int)));
                done = done2;
            }
            pos = next;
        }
        proof {
            assert(lines_from(s, pos as int) == Seq::<Seq<char>>::empty());
            assert(done + Seq::<Seq<char>>::empty() =~= done);
            assert(self.entries() =~= start.union(file_entries(s)));
        }
    }
}

/// Law: a listed address is blocked, and so is every address that ends
/// with it (its subdomains, for a domain).
pub proof fn lemma_listed_address_blocked(b: &BlackList, entry: Seq<char>, address: Seq<u8>)
    requires
        b.entries().contains(entry),
        is_suffix(vstd::utf8::encode_utf8(entry), address),
    ensures
        exists|e: Seq<char>| #[trigger]
            b.entries().contains(e) && is_suffix(vstd::utf8::encode_utf8(e), address),
{
}

/// Law: an address is a suffix of itself, so listing an address blocks it.
pub proof fn lemma_suffix_of_itself(address: Seq<u8>)
    ensures
        is_suffix(address, address),
{
    assert(address.subrange(0, address.len() as int) =~= address);
}

} // verus!
