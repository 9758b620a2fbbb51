//! Which inputs the updater has already applied. Each input file has a companion under the run
//! directory, named by a digest of the input's path, that holds a digest of its contents.

use base64::Engine;
use sha3::Digest;
use vstd::prelude::*;
use vstd::utf8::encode_utf8;

use crate::atomic::{after_outcomes, law_temp_is_beside, temp_path_of};
use crate::atomic_laws::{
    contents, law_old_or_new, law_replaced_or_not, shows, traces, Files, Replacement,
};
use crate::config::Config;
use crate::order::same_bytes;
use crate::path::{ends_idle, file_name_of, is_name, join_path, joined, law_split, trimmed};

verus! {

/// The SHA3-512 digest of `data`.
pub uninterp spec fn sha3_512(data: Seq<u8>) -> Seq<u8>;

/// The SHA3-256 digest of `data`.
pub uninterp spec fn sha3_256(data: Seq<u8>) -> Seq<u8>;

/// The byte of `bytes` at `k`, and zero beyond the end.
pub open spec fn byte_or_zero(bytes: Seq<u8>, k: int) -> int {
    if 0 <= k < bytes.len() {
        bytes[k] as int
    } else {
        0
    }
}

/// The six bits of `bytes` that the base64 digit at `i` stands for.
pub open spec fn sextet(bytes: Seq<u8>, i: int) -> int {
    let k = 3 * (i / 4);
    if i % 4 == 0 {
        byte_or_zero(bytes, k) / 4
    } else if i % 4 == 1 {
        byte_or_zero(bytes, k) % 4 * 16 + byte_or_zero(bytes, k + 1) / 16
    } else if i % 4 == 2 {
        byte_or_zero(bytes, k + 1) % 16 * 4 + byte_or_zero(bytes, k + 2) / 64
    } else {
        byte_or_zero(bytes, k + 2) % 64
    }
}

/// The digit of the URL-safe base64 alphabet with the value `v`.
pub open spec fn base64_digit(v: int) -> char {
    if v < 26 {
        ('A' as int + v) as char
    } else if v < 52 {
        ('a' as int + v - 26) as char
    } else if v < 62 {
        ('0' as int + v - 52) as char
    } else if v == 62 {
        '-'
    } else {
        '_'
    }
}

/// `bytes` in URL-safe base64 without padding.
pub open spec fn base64_url(bytes: Seq<u8>) -> Seq<char> {
    Seq::new((4 * bytes.len() + 2) / 3, |i: int| base64_digit(sextet(bytes, i)))
}

/// The name of the companion of the input at `path`.
pub open spec fn known_name(path: Seq<char>) -> Seq<char> {
    base64_url(sha3_256(encode_utf8(path)))
}

/// The path of the companion of the input at `path`.
pub open spec fn known_path(run_dir: Seq<char>, path: Seq<char>) -> Seq<char> {
    joined(joined(run_dir, "known"@), known_name(path))
}

/// The characters of URL-safe base64.
pub open spec fn url_safe(c: char) -> bool {
    'A' <= c <= 'Z' || 'a' <= c <= 'z' || '0' <= c <= '9' || c == '-' || c == '_'
}

/// Whether the companion's contents record the input's contents. A file that could not be read
/// is `None`, and matches nothing.
pub open spec fn records(input: Option<Seq<u8>>, known: Option<Seq<u8>>) -> bool {
    input is Some && known == Some(sha3_512(input->0))
}

/// The view of bytes that may be missing.
pub open spec fn bytes_view(bytes: Option<&[u8]>) -> Option<Seq<u8>> {
    match bytes {
        Some(b) => Some(b@),
        None => None,
    }
}

/// A file to be put in place, replacing what is there.
#[derive(Debug, PartialEq, Eq)]
pub struct FileWrite {
    /// The path of the file.
    pub path: String,
    /// All of its contents.
    pub contents: Vec<u8>,
}

/// Hashes with `sha3::Sha3_512`: of `new`, `update` and `finalize` in turn it is claimed that the
/// digest depends on the data alone and has 64 bytes. Which bytes they are is left unsaid.
#[verifier::external_body]
fn sha3_512_digest(data: &[u8]) -> (r: Vec<u8>)
    ensures
        r@ == sha3_512(data@),
        r@.len() == 64,
{
    let mut hasher = sha3::Sha3_512::new();
    hasher.update(data);
    hasher.finalize().to_vec()
}

/// Hashes with `sha3::Sha3_256`: of `new`, `update` and `finalize` in turn it is claimed that the
/// digest depends on the data alone and has 32 bytes. Which bytes they are is left unsaid.
#[verifier::external_body]
fn sha3_256_digest(data: &[u8]) -> (r: Vec<u8>)
    ensures
        r@ == sha3_256(data@),
        r@.len() == 32,
{
    let mut hasher = sha3::Sha3_256::new();
    hasher.update(data);
    hasher.finalize().to_vec()
}

/// Encodes with `base64::engine::general_purpose::URL_SAFE_NO_PAD`: of `encode` it is claimed that
/// it gives the URL-safe base64 digits of the bytes, without padding. It panics on inputs whose
/// encoding is too long for the address space, which `requires` leaves out.
#[verifier::external_body]
fn base64_encode(bytes: &[u8]) -> (r: String)
    requires
        4 * bytes@.len() <= usize::MAX,
    ensures
        r@ == base64_url(bytes@),
{
    base64::engine::general_purpose::URL_SAFE_NO_PAD.encode(bytes)
}

/// The digest that stands for the contents of a file.
pub fn default_hash(b: &[u8]) -> (r: Vec<u8>)
    ensures
        r@ == sha3_512(b@),
        r@.len() == 64,
{
    sha3_512_digest(b)
}

/// The digest that stands for the contents of a file, as text.
pub fn default_hash_base64(b: &[u8]) -> (r: String)
    ensures
        r@ == base64_url(sha3_512(b@)),
        r@.len() == 86,
{
    let hash = default_hash(b);
    base64_encode(hash.as_slice())
}

/// The path of the companion of an input, given the digest of the input's path.
pub fn companion_path(digest: &[u8], cfg: &Config) -> (r: String)
    requires
        4 * digest@.len() <= usize::MAX,
    ensures
        r@ == joined(joined(cfg.run_dir@, "known"@), base64_url(digest@)),
{
    let encoded = base64_encode(digest);
    join_path(join_path(cfg.run_dir, "known").as_str(), encoded.as_str())
}

/// The path of the companion of the input at `path`.
pub fn get_known_path(path: &str, cfg: &Config) -> (r: String)
    ensures
        r@ == known_path(cfg.run_dir@, path@),
        r@ == joined(cfg.run_dir@, "known"@).push('/') + known_name(path@),
        sha3_256(encode_utf8(path@)).len() == 32,
        known_name(path@).len() == 43,
        forall|i: int| 0 <= i < known_name(path@).len() ==> url_safe(#[trigger] known_name(path@)[i]),
{
    let hash = sha3_256_digest(path.as_bytes());
    proof {
        law_known_paths(cfg.run_dir@, path@, path@);
    }
    companion_path(hash.as_slice(), cfg)
}

/// The digest that a companion holds.
pub fn known_hash(b: &[u8]) -> (r: Vec<u8>)
    ensures
        r@ == sha3_512(b@),
        r@.len() == 64,
{
    default_hash(b)
}

/// The write that records `data` as the contents of the input at `path`.
pub fn write_known(path: &str, data: &[u8], cfg: &Config) -> (r: FileWrite)
    ensures
        r.path@ == known_path(cfg.run_dir@, path@),
        r.contents@ == sha3_512(data@),
{
    FileWrite { path: get_known_path(path, cfg), contents: known_hash(data) }
}

/// Whether the companion's contents record the input's contents.
pub fn matches_known(input_data: Option<&[u8]>, known_data: Option<&[u8]>) -> (r: bool)
    ensures
        r == records(bytes_view(input_data), bytes_view(known_data)),
{
    match (input_data, known_data) {
        (Some(current), Some(known)) => {
            let current_hashed = known_hash(current);
            same_bytes(current_hashed.as_slice(), known)
        },
        _ => false,
    }
}

/// What is recorded is recognised: the write that records some contents matches those contents,
/// and matches other contents only where their digests collide.
pub proof fn law_recorded_is_known(data: Seq<u8>, other: Seq<u8>)
    ensures
        records(Some(data), Some(sha3_512(data))),
        records(Some(other), Some(sha3_512(data))) <==> sha3_512(other) == sha3_512(data),
{
}

/// A base64 digit tells its value.
proof fn lemma_digit(v: int, w: int)
    requires
        0 <= v < 64,
        0 <= w < 64,
    ensures
        base64_digit(v) == base64_digit(w) ==> v == w,
        url_safe(base64_digit(v)),
{
}

/// Six bits make a value below 64.
proof fn lemma_sextet(bytes: Seq<u8>, i: int)
    ensures
        0 <= sextet(bytes, i) < 64,
{
}

/// Different byte strings have different encodings.
pub proof fn law_base64_injective(a: Seq<u8>, b: Seq<u8>)
    requires
        base64_url(a) == base64_url(b),
    ensures
        a == b,
{
    let n = a.len();
    assert(base64_url(a).len() == (4 * n + 2) / 3);
    assert(base64_url(b).len() == (4 * b.len() + 2) / 3);
    assert forall|i: int| 0 <= i < (4 * n + 2) / 3 implies sextet(a, i) == sextet(b, i) by {
        assert(base64_url(a)[i] == base64_digit(sextet(a, i)));
        assert(base64_url(b)[i] == base64_digit(sextet(b, i)));
        lemma_sextet(a, i);
        lemma_sextet(b, i);
        lemma_digit(sextet(a, i), sextet(b, i));
    }
    assert forall|k: int| 0 <= k < n implies a[k] == b[k] by {
        let i = 4 * (k / 3) + k % 3;
        assert(sextet(a, i) == sextet(b, i));
        assert(sextet(a, i + 1) == sextet(b, i + 1));
    }
    assert(a == b);
}

/// The companion of an input lies in the directory `known` under the run directory. Its name is
/// made of URL-safe characters, so that it is one component, and has 43 of them for a digest of 32
/// bytes. Under one run directory two inputs share a companion just where the digests of their
/// paths collide.
pub proof fn law_known_paths(run_dir: Seq<char>, p: Seq<char>, q: Seq<char>)
    ensures
        known_path(run_dir, p) == joined(run_dir, "known"@).push('/') + known_name(p),
        forall|i: int| 0 <= i < known_name(p).len() ==> url_safe(#[trigger] known_name(p)[i]),
        !known_name(p).contains('/'),
        sha3_256(encode_utf8(p)).len() == 32 ==> known_name(p).len() == 43,
        known_path(run_dir, p) == known_path(run_dir, q) <==> sha3_256(encode_utf8(p)) == sha3_256(
            encode_utf8(q),
        ),
{
    reveal_strlit("known");
    let dp = sha3_256(encode_utf8(p));
    let dq = sha3_256(encode_utf8(q));
    let dir = joined(run_dir, "known"@);
    assert(dir.last() == 'n');
    assert forall|d: Seq<u8>, i: int| 0 <= i < base64_url(d).len() implies url_safe(
        #[trigger] base64_url(d)[i],
    ) by {
        lemma_sextet(d, i);
        lemma_digit(sextet(d, i), 0);
    }
    assert(known_path(run_dir, p) == dir.push('/') + base64_url(dp));
    assert(known_path(run_dir, q) == dir.push('/') + base64_url(dq));
    if known_path(run_dir, p) == known_path(run_dir, q) {
        let head = dir.push('/');
        assert((head + base64_url(dp)).skip(head.len() as int) == base64_url(dp));
        assert((head + base64_url(dq)).skip(head.len() as int) == base64_url(dq));
        law_base64_injective(dp, dq);
    }
}

/// The name at the end of a companion's path is the digest, or that of its directory where the
/// digest has no characters.
proof fn lemma_known_file_name(run_dir: Seq<char>, path: Seq<char>)
    ensures
        known_name(path).len() > 0 ==> file_name_of(known_path(run_dir, path)) == Some(
            known_name(path),
        ),
        file_name_of(known_path(run_dir, path)) matches Some(name) && name.len() > 0 && name[0]
            != '.',
{
    reveal_strlit("known");
    law_known_paths(run_dir, path, path);
    let dir = joined(run_dir, "known"@);
    let name = known_name(path);
    if name.len() > 0 {
        assert(url_safe(name[0]));
        assert(is_name(name));
        law_split(dir.push('/'), name);
    } else {
        let lead = if run_dir.len() == 0 || run_dir.last() == '/' {
            run_dir
        } else {
            run_dir.push('/')
        };
        assert(is_name("known"@));
        law_split(lead, "known"@);
        assert(dir == lead + "known"@);
        assert(known_path(run_dir, path) == dir.push('/'));
        assert(ends_idle(dir.push('/')));
        assert(dir.push('/').drop_last() == dir);
        assert(trimmed(dir.push('/')) == trimmed(dir));
    }
}

/// What becomes of the companions when one is written. In the end the companion of `path` holds the
/// digest of `data`, and is recognised by it, where the write succeeded, and is as it was where it
/// failed; until then it is as it was or holds that digest. The companion of an input that does not
/// share it stays as it is throughout.
pub proof fn law_companion_is_written(
    run_dir: Seq<char>,
    path: Seq<char>,
    data: Seq<u8>,
    other: Seq<char>,
    job: Replacement,
    outcomes: Seq<bool>,
    trace: Seq<Files>,
    now: Files,
)
    requires
        job.target == known_path(run_dir, path),
        job.data == sha3_512(data),
        traces(job, outcomes, trace),
        shows(after_outcomes(outcomes), job, trace.last(), now),
    ensures
        ({
            let before = contents(trace[0], known_path(run_dir, path));
            let after = contents(now, known_path(run_dir, path));
            &&& after == before || after == Some(sha3_512(data))
            &&& after_outcomes(outcomes) is Done ==> after == Some(sha3_512(data)) && records(
                Some(data),
                after,
            )
            &&& after_outcomes(outcomes) is Fail || after_outcomes(outcomes) is Discard ==> after
                == before
        }),
        known_path(run_dir, other) != known_path(run_dir, path) ==> contents(
            now,
            known_path(run_dir, other),
        ) == contents(trace[0], known_path(run_dir, other)),
        temp_path_of(job.target, job.pid, job.timestamp) is Some,
{
    lemma_known_file_name(run_dir, path);
    lemma_known_file_name(run_dir, other);
    law_temp_is_beside(job.target, job.pid, job.timestamp);
    law_old_or_new(job, outcomes, trace, now, known_path(run_dir, other));
    law_replaced_or_not(job, outcomes, trace, now);
}

/// A companion tells that an input is unchanged just where both could be read and the companion
/// holds the digest of the input's contents.
pub proof fn law_records(input: Option<Seq<u8>>, known: Option<Seq<u8>>)
    ensures
        records(input, known) <==> (exists|data: Seq<u8>|
            input == Some(data) && known == Some(#[trigger] sha3_512(data))),
{
    if records(input, known) {
        assert(known == Some(sha3_512(input->0)));
    }
}

/// Where companions are: in `known` under the run directory, under the digest of the input's path
/// as URL-safe base64.
pub proof fn law_known_path(run_dir: Seq<char>, path: Seq<char>)
    ensures
        run_dir.len() > 0 && run_dir.last() != '/' ==> known_path(run_dir, path) == run_dir + seq![
            '/',
            'k',
            'n',
            'o',
            'w',
            'n',
            '/',
        ] + base64_url(sha3_256(encode_utf8(path))),
        run_dir.len() == 0 || run_dir.last() == '/' ==> known_path(run_dir, path) == run_dir + seq![
            'k',
            'n',
            'o',
            'w',
            'n',
            '/',
        ] + base64_url(sha3_256(encode_utf8(path))),
{
    reveal_strlit("known");
    law_known_paths(run_dir, path, path);
}

} // verus!
