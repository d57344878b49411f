//! Decisions of the caching HTTP proxy: where a request goes, which file
//! caches a response, and when a cached response may be served.
use sha2::Digest;
use vstd::prelude::*;
use vstd::string::StringSliceAdditionalSpecFns;
use crate::text::{chars_of, find_char, next_index_of, push_str, skip_char, skip_while_eq, string_from_range, string_of};

verus! {

/// The SHA-256 digest of the data.
pub uninterp spec fn sha256(data: Seq<u8>) -> Seq<u8>;

/// SHA-256 of `data` (`sha2::Sha256::digest`): a function of the data
/// alone, 32 bytes long. Nothing else about the digest is stated.
#[verifier::external_body]
fn sha256_digest(data: &[u8]) -> (res: Vec<u8>)
    ensures
        res@ == sha256(data@),
        res@.len() == 32,
{
    sha2::Sha256::digest(data).to_vec()
}

/// The lowercase hexadecimal digit for `d < 16`.
pub open spec fn hex_digit(d: nat) -> char {
    if d < 10 {
        crate::text::digit_char(d)
    } else if d == 10 {
        'a'
    } else if d == 11 {
        'b'
    } else if d == 12 {
        'c'
    } else if d == 13 {
        'd'
    } else if d == 14 {
        'e'
    } else {
        'f'
    }
}

/// Lowercase hexadecimal notation of the bytes: two digits per byte, high
/// nibble first.
pub open spec fn hex_lower(data: Seq<u8>) -> Seq<char>
    decreases data.len(),
{
    if data.len() == 0 {
        Seq::empty()
    } else {
        hex_lower(data.drop_last()).push(hex_digit(data.last() as nat / 16)).push(
            hex_digit(data.last() as nat % 16),
        )
    }
}

/// Lowercase hex encoding (`hex::encode`), which writes each byte as two
/// lowercase digits, high nibble first.
#[verifier::external_body]
fn hex_encode(data: &[u8]) -> (res: String)
    ensures
        res@ == hex_lower(data@),
{
    hex::encode(data)
}

/// The name of the file that caches the response for `uri`: the lowercase
/// hex of the SHA-256 digest of the URI.
pub fn get_cache_filename(uri: &str) -> (res: String)
    ensures
        res@ == hex_lower(sha256(uri.spec_bytes())),
{
    let digest = sha256_digest(uri.as_bytes());
    cache_filename_of_digest(digest.as_slice())
}

/// The cache file name for a URI whose SHA-256 digest is `digest`.
pub fn cache_filename_of_digest(digest: &[u8]) -> (res: String)
    ensures
        res@ == hex_lower(digest@),
{
    hex_encode(digest)
}

/// Hexadecimal notation takes two characters per byte.
pub proof fn lemma_hex_len(data: Seq<u8>)
    ensures
        hex_lower(data).len() == 2 * data.len(),
    decreases data.len(),
{
    if data.len() > 0 {
        lemma_hex_len(data.drop_last());
    }
}

/// Law: cache file names are 64 characters long.
pub proof fn lemma_cache_filename_len(uri: Seq<u8>)
    requires
        sha256(uri).len() == 32,
    ensures
        hex_lower(sha256(uri)).len() == 64,
{
    lemma_hex_len(sha256(uri));
}

/// Host, path and full upstream URI of a proxied request.
pub struct UriParts {
    pub host: String,
    pub path: String,
    pub uri: String,
}

/// The host and path of a request URI. An absolute URI gives its host and
/// its path with query (or "/"); otherwise the path, without its leading
/// slashes, starts with the host, and the rest (or "/") followed by the
/// query is the path.
pub open spec fn spec_host_path(
    host: Option<Seq<char>>,
    path_and_query: Option<Seq<char>>,
    path: Seq<char>,
    query: Option<Seq<char>>,
) -> (Seq<char>, Seq<char>) {
    match host {
        Some(h) => (
            h,
            match path_and_query {
                Some(pq) => pq,
                None => seq!['/'],
            },
        ),
        None => {
            let start = skip_char(path, '/', 0);
            let full = path.subrange(start, path.len() as int);
            let slash = next_index_of(full, '/', 0);
            let q = match query {
                Some(q) => seq!['?'] + q,
                None => Seq::empty(),
            };
            if slash < full.len() {
                (full.subrange(0, slash), seq!['/'] + full.subrange(slash + 1, full.len() as int) + q)
            } else {
                (full, seq!['/'] + q)
            }
        },
    }
}

/// Splits a request URI, given by its parts, into host, path and the
/// upstream URI `https://{host}{path}`.
pub fn split_uri(
    host: Option<&str>,
    path_and_query: Option<&str>,
    path: &str,
    query: Option<&str>,
) -> (res: UriParts)
    ensures
        ({
            let (h, p) = spec_host_path(
                match host {
                    Some(x) => Some(x@),
                    None => None,
                },
                match path_and_query {
                    Some(x) => Some(x@),
                    None => None,
                },
                path@,
                match query {
                    Some(x) => Some(x@),
                    None => None,
                },
            );
            res.host@ == h && res.path@ == p && res.uri@ == "https://"@ + h + p
        }),
{
    let (h, p) = match host {
        Some(hs) => {
            let p = match path_and_query {
                Some(pq) => string_of(pq),
                None => string_of("/"),
            };
            (string_of(hs), p)
        },
        None => {
            let cs = chars_of(path);
            let start = skip_while_eq(cs.as_slice(), '/', 0);
            let ghost full = cs@.subrange(start as int, cs@.len() as int);
            let slash = find_char(cs.as_slice(), '/', start);
            proof {
                assert forall|k: int| 0 <= k <= full.len() implies next_index_of(full, '/', k) + start
                    == next_index_of(cs@, '/', start + k) by {
                    lemma_next_index_shift(cs@, start as int, k);
                }
            }
            let mut path_str = string_of("/");
            let host_str;
            if slash < cs.len() {
                host_str = string_from_range(cs.as_slice(), start, slash);
                let rest = string_from_range(cs.as_slice(), slash + 1, cs.len());
                push_str(&mut path_str, rest.as_str());
                assert(full.subrange(0, slash - start) =~= cs@.subrange(start as int, slash as int));
                assert(full.subrange(slash - start + 1, full.len() as int) =~= cs@.subrange(
                    slash + 1,
                    cs@.len() as int,
                ));
            } else {
                host_str = string_from_range(cs.as_slice(), start, cs.len());
            }
            match query {
                Some(q) => {
                    push_str(&mut path_str, "?");
                    push_str(&mut path_str, q);
                    proof {
                        reveal_strlit("?");
                        reveal_strlit("/");
                    }
                },
                None => {
                    proof {
                        reveal_strlit("/");
                    }
                },
            }
            (host_str, path_str)
        },
    };
    let mut uri = string_of("https://");
    push_str(&mut uri, h.as_str());
    push_str(&mut uri, p.as_str());
    proof {
        reveal_strlit("/");
    }
    UriParts { host: h, path: p, uri }
}

proof fn lemma_next_index_shift(s: Seq<char>, start: int, k: int)
    requires
        0 <= start <= s.len(),
        0 <= k <= s.len() - start,
    ensures
        next_index_of(s.subrange(start, s.len() as int), '/', k) + start == next_index_of(
            s,
            '/',
            start + k,
        ),
    decreases s.len() - start - k,
{
    if k < s.len() - start {
        lemma_next_index_shift(s, start, k + 1);
    }
}

/// Whether a cached response expiring at `expires_at` may be served at
/// `now` (both in nanoseconds since the Unix epoch): it has not expired.
pub fn is_fresh(now: u128, expires_at: u128) -> (res: bool)
    ensures
        res == (now < expires_at),
{
    now < expires_at
}

/// Whether an upstream response is cached: a GET answered 200 with a
/// positive `max-age`.
pub fn should_store(is_get: bool, max_age_secs: u64, status: u16) -> (res: bool)
    ensures
        res == (is_get && max_age_secs > 0 && status == 200),
{
    is_get && max_age_secs > 0 && status == 200
}

/// Nanoseconds in a second.
pub const NANOS_PER_SEC: u128 = 1_000_000_000;

/// The expiry of a response stored at `now` (nanoseconds since the Unix
/// epoch) with the given `max-age`; the system clock's seconds must stay
/// within `i64`.
pub fn expiry_time(now: u128, max_age_secs: u64) -> (res: u128)
    requires
        now / NANOS_PER_SEC + max_age_secs <= i64::MAX,
    ensures
        res == now + max_age_secs * NANOS_PER_SEC,
{
    assert(now <= 0x7fff_ffff_ffff_ffffu128 * 1_000_000_000u128 + 999_999_999u128) by (nonlinear_arith)
        requires
            now / 1_000_000_000u128 <= 0x7fff_ffff_ffff_ffffu128,
    ;
    assert(max_age_secs as u128 * 1_000_000_000u128 <= 0xffff_ffff_ffff_ffffu128 * 1_000_000_000u128)
        by (nonlinear_arith);
    now + max_age_secs as u128 * NANOS_PER_SEC
}

/// Whether `now` plus `max-age` stays within the range of seconds the
/// system clock can hold, so that the expiry can be computed.
pub fn expiry_in_range(now: u128, max_age_secs: u64) -> (res: bool)
    ensures
        res == (now / NANOS_PER_SEC + max_age_secs <= i64::MAX),
{
    (now / NANOS_PER_SEC) + (max_age_secs as u128) <= (i64::MAX as u128)
}

/// How the proxy first handles a request.
#[derive(Clone, Copy, Debug, PartialEq, Eq, Structural)]
pub enum RequestRoute {
    /// The host is blacklisted: answer 403.
    Blocked,
    /// A `CONNECT` request: open a tunnel.
    Tunnel,
    /// Forward it upstream.
    Forward,
}

/// A blacklisted host is refused before anything else; a `CONNECT` to an
/// allowed host is tunnelled; anything else is forwarded.
pub fn route_request(host_blocked: bool, is_connect: bool) -> (res: RequestRoute)
    ensures
        res == (if host_blocked {
            RequestRoute::Blocked
        } else if is_connect {
            RequestRoute::Tunnel
        } else {
            RequestRoute::Forward
        }),
{
    if host_blocked {
        RequestRoute::Blocked
    } else if is_connect {
        RequestRoute::Tunnel
    } else {
        RequestRoute::Forward
    }
}

/// What the cache offers for a forwarded request.
#[derive(Clone, Copy, Debug, PartialEq, Eq, Structural)]
pub enum CacheLookup {
    /// A fresh copy: serve it without asking upstream.
    Hit,
    /// An expired copy: ask upstream conditionally and keep the copy.
    Revalidate,
    /// Nothing usable: ask upstream.
    Miss,
}

/// Only GET requests use the cache; a stored copy expiring at
/// `cached_expiry` is served while fresh and revalidated afterwards.
pub fn cache_lookup(is_get: bool, cached_expiry: Option<u128>, now: u128) -> (res: CacheLookup)
    ensures
        res == (match cached_expiry {
            Some(expires_at) if is_get => if now < expires_at {
                CacheLookup::Hit
            } else {
                CacheLookup::Revalidate
            },
            _ => CacheLookup::Miss,
        }),
{
    if !is_get {
        return CacheLookup::Miss;
    }
    match cached_expiry {
        Some(expires_at) => if is_fresh(now, expires_at) {
            CacheLookup::Hit
        } else {
            CacheLookup::Revalidate
        },
        None => CacheLookup::Miss,
    }
}

/// What the proxy does with the upstream response.
#[derive(Clone, Copy, Debug, PartialEq, Eq, Structural)]
pub enum UpstreamReply {
    /// 304 to a revalidation: serve the kept copy.
    ServeCached,
    /// Cacheable: store it, then pass it on.
    Store,
    /// Pass it on unchanged.
    PassThrough,
}

/// A 304 answer with a kept copy serves the copy; otherwise a cacheable
/// response (see `should_store`) is stored, and anything else passes.
pub fn upstream_reply(status: u16, has_kept_copy: bool, is_get: bool, max_age_secs: u64) -> (res:
    UpstreamReply)
    ensures
        res == (if status == 304 && has_kept_copy {
            UpstreamReply::ServeCached
        } else if is_get && max_age_secs > 0 && status == 200 {
            UpstreamReply::Store
        } else {
            UpstreamReply::PassThrough
        }),
{
    if status == 304 && has_kept_copy {
        UpstreamReply::ServeCached
    } else if should_store(is_get, max_age_secs, status) {
        UpstreamReply::Store
    } else {
        UpstreamReply::PassThrough
    }
}

/// Law: in the origin form (no host in the request URI) the upstream path
/// starts with a slash and, when the request has a query, ends with `?`
/// and the query, whether or not anything follows the host.
pub proof fn lemma_origin_form_keeps_query(
    path_and_query: Option<Seq<char>>,
    path: Seq<char>,
    query: Option<Seq<char>>,
)
    ensures
        ({
            let p = spec_host_path(None, path_and_query, path, query).1;
            &&& p.len() > 0 && p[0] == '/'
            &&& query matches Some(q) ==> p.len() >= q.len() + 1 && p.subrange(
                p.len() - q.len() - 1,
                p.len() as int,
            ) == seq!['?'] + q
        }),
{
    let p = spec_host_path(None, path_and_query, path, query).1;
    match query {
        Some(q) => {
            assert(p.subrange(p.len() - q.len() - 1, p.len() as int) =~= seq!['?'] + q);
        },
        None => {},
    }
}

} // verus!
