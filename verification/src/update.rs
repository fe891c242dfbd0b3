//! The checks of the self-update: which release asset to take, how large a
//! download may be, and whether it matches its published digest.
use vstd::prelude::*;
use vstd::string::*;
use sha2::Digest;
use crate::render::push_char;

verus! {

/// The largest binary that is accepted (10 MiB).
pub const MAX_BINARY_SIZE: u64 = 10485760;

/// A release as the releases API describes it.
pub struct GitHubRelease {
    pub tag_name: String,
    pub assets: Vec<GitHubAsset>,
}

/// A downloadable file of a release.
pub struct GitHubAsset {
    pub name: String,
    pub browser_download_url: String,
    pub digest: String,
}

/// Why an update was refused.
#[derive(Debug)]
pub enum UpdateError {
    /// The release has no asset named `tslay`.
    NoAsset,
    /// The downloaded binary is larger than `MAX_BINARY_SIZE`.
    TooLarge,
    /// The release publishes no digest for the asset.
    MissingDigest,
    /// The digest of the download differs from the published one.
    DigestMismatch { expected: String, actual: String },
}

/// Whether two strings hold the same characters.
pub fn same_text(a: &str, b: &str) -> (r: bool)
    ensures
        r == (a@ == b@),
{
    let n = a.unicode_len();
    if n != b.unicode_len() {
        return false;
    }
    let mut i: usize = 0;
    while i < n
        invariant
            n == a@.len(),
            n == b@.len(),
            i <= n,
            forall|j: int| 0 <= j < i ==> a@[j] == b@[j],
        decreases n - i,
    {
        if a.get_char(i) != b.get_char(i) {
            return false;
        }
        i = i + 1;
    }
    assert(a@ =~= b@);
    true
}

/// `p` is the position of the first asset named `name`.
pub open spec fn is_first_named(assets: Seq<GitHubAsset>, name: Seq<char>, p: int) -> bool {
    &&& 0 <= p < assets.len()
    &&& assets[p].name@ == name
    &&& forall|j: int| 0 <= j < p ==> assets[j].name@ != name
}

/// Finds the first asset with the given name.
pub fn find_asset<'a>(assets: &'a [GitHubAsset], name: &str) -> (r: Option<&'a GitHubAsset>)
    ensures
        match r {
            Some(a) => exists|p: int| is_first_named(assets@, name@, p) && *a == assets@[p],
            None => forall|j: int| 0 <= j < assets@.len() ==> assets@[j].name@ != name@,
        },
{
    let mut i: usize = 0;
    while i < assets.len()
        invariant
            i <= assets@.len(),
            forall|j: int| 0 <= j < i ==> assets@[j].name@ != name@,
        decreases assets@.len() - i,
    {
        if same_text(assets[i].name.as_str(), name) {
            assert(is_first_named(assets@, name@, i as int));
            return Some(&assets[i]);
        }
        i = i + 1;
    }
    None
}

/// Refuses a download larger than `MAX_BINARY_SIZE` bytes.
pub fn check_download_size(len: usize) -> (r: Result<(), UpdateError>)
    ensures
        r is Ok <==> len <= MAX_BINARY_SIZE,
        r matches Err(e) ==> e is TooLarge,
{
    if len as u64 > MAX_BINARY_SIZE {
        Err(UpdateError::TooLarge)
    } else {
        Ok(())
    }
}

/// The SHA-256 digest of some bytes.
pub uninterp spec fn sha256(data: Seq<u8>) -> Seq<u8>;

/// Runs `sha2::Sha256` (`new`, `update`, `finalize`) over `data`. The
/// contract claims that the result is the SHA-256 digest of the bytes, named
/// `sha256`, and that it is 32 bytes long, the output size of `Sha256`.
#[verifier::external_body]
fn sha256_digest(data: &[u8]) -> (r: Vec<u8>)
    ensures
        r@ == sha256(data@),
        r@.len() == 32,
{
    let mut hasher = sha2::Sha256::new();
    hasher.update(data);
    hasher.finalize().to_vec()
}

/// The lower-case hex digit for `d` (below 16).
pub open spec fn hex_digit(d: int) -> char {
    if d < 10 {
        (48 + d) as char
    } else {
        (87 + d) as char
    }
}

/// Bytes as lower-case hex, two digits per byte.
pub open spec fn hex_lower(bytes: Seq<u8>) -> Seq<char>
    decreases bytes.len(),
{
    if bytes.len() == 0 {
        Seq::empty()
    } else {
        hex_lower(bytes.drop_last()).push(hex_digit(bytes.last() as int / 16)).push(
            hex_digit(bytes.last() as int % 16),
        )
    }
}

/// `p` is the position of the first `:` in `s`.
pub open spec fn is_first_colon(s: Seq<char>, p: int) -> bool {
    &&& 0 <= p < s.len()
    &&& s[p] == ':'
    &&& forall|j: int| 0 <= j < p ==> s[j] != ':'
}

/// A published digest without its algorithm prefix: what follows the first
/// `:` (as in `sha256:...`), or the whole text when it has none.
pub open spec fn digest_hex(published: Seq<char>) -> Seq<char> {
    if exists|p: int| is_first_colon(published, p) {
        let p = choose|p: int| is_first_colon(published, p);
        published.subrange(p + 1, published.len() as int)
    } else {
        published
    }
}

fn hex_char(d: u8) -> (c: char)
    requires
        d < 16,
    ensures
        c == hex_digit(d as int),
{
    if d < 10 {
        (48u8 + d) as char
    } else {
        (87u8 + d) as char
    }
}

/// Bytes as lower-case hex.
pub fn to_hex_lower(bytes: &[u8]) -> (r: String)
    ensures
        r@ == hex_lower(bytes@),
{
    let mut s = String::new();
    let mut i: usize = 0;
    assert(bytes@.take(0) =~= Seq::<u8>::empty());
    while i < bytes.len()
        invariant
            i <= bytes@.len(),
            s@ == hex_lower(bytes@.take(i as int)),
        decreases bytes@.len() - i,
    {
        let b = bytes[i];
        assert(bytes@.take(i + 1).drop_last() =~= bytes@.take(i as int));
        assert(bytes@.take(i + 1).last() == b);
        push_char(&mut s, hex_char(b / 16));
        push_char(&mut s, hex_char(b % 16));
        i = i + 1;
    }
    assert(bytes@.take(bytes@.len() as int) =~= bytes@);
    s
}

/// Checks the SHA-256 digest of the data against a published digest in
/// the form `sha256:hex...` (the prefix is optional).
pub fn verify_digest(data: &[u8], expected: &str) -> (r: Result<(), UpdateError>)
    ensures
        r is Ok <==> hex_lower(sha256(data@)) == digest_hex(expected@),
        r matches Err(e) ==> e matches UpdateError::DigestMismatch { expected: x, actual: a }
            && x@ == digest_hex(expected@) && a@ == hex_lower(sha256(data@)),
{
    let n = expected.unicode_len();
    let mut i: usize = 0;
    while i < n && expected.get_char(i) != ':'
        invariant
            n == expected@.len(),
            i <= n,
            forall|j: int| 0 <= j < i ==> expected@[j] != ':',
        decreases n - i,
    {
        i = i + 1;
    }
    let hex = if i < n {
        assert(is_first_colon(expected@, i as int));
        proof {
            let q = choose|q: int| is_first_colon(expected@, q);
            assert(q == i as int) by {
                if q < i as int {
                    assert(expected@[q] != ':');
                } else if q > i as int {
                    assert(expected@[i as int] != ':');
                }
            }
        }
        expected.substring_char(i + 1, n)
    } else {
        assert(!exists|q: int| is_first_colon(expected@, q));
        expected
    };
    let digest = sha256_digest(data);
    let actual = to_hex_lower(digest.as_slice());
    if same_text(actual.as_str(), hex) {
        Ok(())
    } else {
        Err(UpdateError::DigestMismatch { expected: hex.to_owned(), actual })
    }
}

/// Checks a downloaded asset against the digest that the release publishes
/// for it: no digest is refused, a differing one too.
pub fn verify_asset(data: &[u8], published: &str) -> (r: Result<(), UpdateError>)
    ensures
        published@.len() == 0 ==> (r matches Err(e) && e is MissingDigest),
        published@.len() > 0 ==> (r is Ok <==> hex_lower(sha256(data@)) == digest_hex(
            published@,
        )),
        published@.len() > 0 && r is Err ==> (r matches Err(e) && e matches UpdateError::DigestMismatch {
            expected: x,
            actual: a,
        } && x@ == digest_hex(published@) && a@ == hex_lower(sha256(data@))),
{
    if published.is_empty() {
        return Err(UpdateError::MissingDigest);
    }
    verify_digest(data, published)
}

/// Whether a downloaded update may be installed: the release has an asset
/// named `tslay`, the download is within the size cap, and that asset
/// publishes a digest that the download matches.
pub fn approve_update(assets: &[GitHubAsset], data: &[u8]) -> (r: Result<(), UpdateError>)
    ensures
        r is Ok <==> exists|p: int|
            is_first_named(assets@, "tslay"@, p) && data@.len() <= MAX_BINARY_SIZE
                && assets@[p].digest@.len() > 0 && hex_lower(sha256(data@)) == digest_hex(
                assets@[p].digest@,
            ),
        (forall|j: int| 0 <= j < assets@.len() ==> assets@[j].name@ != "tslay"@) ==> (r matches Err(
            e,
        ) && e is NoAsset),
        (exists|p: int| is_first_named(assets@, "tslay"@, p)) && data@.len() > MAX_BINARY_SIZE ==> (
        r matches Err(e) && e is TooLarge),
        forall|p: int|
            #![trigger is_first_named(assets@, "tslay"@, p)]
            is_first_named(assets@, "tslay"@, p) && data@.len() <= MAX_BINARY_SIZE
                && assets@[p].digest@.len() == 0 ==> (r matches Err(e) && e is MissingDigest),
        forall|p: int|
            #![trigger is_first_named(assets@, "tslay"@, p)]
            is_first_named(assets@, "tslay"@, p) && data@.len() <= MAX_BINARY_SIZE
                && assets@[p].digest@.len() > 0 && hex_lower(sha256(data@)) != digest_hex(
                assets@[p].digest@,
            ) ==> (r matches Err(e) && e matches UpdateError::DigestMismatch { expected: x, actual: a }
                && x@ == digest_hex(assets@[p].digest@) && a@ == hex_lower(sha256(data@))),
{
    let asset = match find_asset(assets, "tslay") {
        Some(a) => a,
        None => return Err(UpdateError::NoAsset),
    };
    let ghost p = choose|p: int| is_first_named(assets@, "tslay"@, p) && *asset == assets@[p];
    proof {
        assert forall|q: int| is_first_named(assets@, "tslay"@, q) implies q == p by {
            if q < p {
                assert(assets@[q].name@ != "tslay"@);
            } else if q > p {
                assert(assets@[p].name@ != "tslay"@);
            }
        }
    }
    match check_download_size(data.len()) {
        Ok(()) => {},
        Err(e) => return Err(e),
    }
    verify_asset(data, asset.digest.as_str())
}

} // verus!
