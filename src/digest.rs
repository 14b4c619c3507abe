//! Content digests of source files: SHA-256 over the bytes with every carriage
//! return removed, so that a file gives the same digest whatever line endings
//! it was checked out with.
use vstd::prelude::*;
use sha2::Digest;

verus! {

/// The carriage return byte.
pub const CR: u8 = 0x0d;
/// The line feed byte.
pub const LF: u8 = 0x0a;

/// The bytes of `b` without its carriage returns.
pub open spec fn remove_cr(b: Seq<u8>) -> Seq<u8> {
    b.filter(|x: u8| x != CR)
}

/// The SHA-256 digest of a byte string.
pub uninterp spec fn sha256_of(b: Seq<u8>) -> Seq<u8>;

/// The content digest of a source file with the bytes `b`.
pub open spec fn digest_of(b: Seq<u8>) -> Seq<u8> {
    sha256_of(remove_cr(b))
}

/// `b` with a carriage return put before each line feed: the same text with
/// `\r\n` line endings in place of `\n`.
pub open spec fn with_crlf(b: Seq<u8>) -> Seq<u8>
    decreases b.len(),
{
    if b.len() == 0 {
        seq![]
    } else {
        (if b[0] == LF { seq![CR, LF] } else { seq![b[0]] }) + with_crlf(b.drop_first())
    }
}

/// Relies on `sha2::Sha256::digest`: the SHA-256 digest of the bytes, 32 bytes long.
#[verifier::external_body]
fn sha256(b: &[u8]) -> (r: Vec<u8>)
    ensures
        r@ == sha256_of(b@),
        r@.len() == 32,
{
    sha2::Sha256::digest(b).to_vec()
}

/// The bytes of `b` without its carriage returns.
pub fn strip_cr(b: &[u8]) -> (r: Vec<u8>)
    ensures
        r@ == remove_cr(b@),
{
    let mut out: Vec<u8> = Vec::new();
    let mut i: usize = 0;
    while i < b.len()
        invariant
            i <= b@.len(),
            out@ == remove_cr(b@.take(i as int)),
        decreases b.len() - i,
    {
        proof {
            assert(b@.take(i + 1) =~= b@.take(i as int).push(b@[i as int]));
            b@.take(i as int).lemma_filter_push(b@[i as int], |x: u8| x != CR);
        }
        if b[i] != CR {
            out.push(b[i]);
        }
        i = i + 1;
    }
    assert(b@.take(i as int) =~= b@);
    out
}

/// The content digest of a source file: SHA-256 over its bytes without carriage returns.
pub fn content_digest(b: &[u8]) -> (r: Vec<u8>)
    ensures
        r@ == digest_of(b@),
        r@.len() == 32,
{
    let stripped = strip_cr(b);
    sha256(stripped.as_slice())
}

/// A copy of the bytes.
pub fn copy_bytes(b: &[u8]) -> (r: Vec<u8>)
    ensures
        r@ == b@,
{
    let mut out: Vec<u8> = Vec::new();
    let mut i: usize = 0;
    while i < b.len()
        invariant
            i <= b@.len(),
            out@ == b@.take(i as int),
        decreases b.len() - i,
    {
        out.push(b[i]);
        assert(b@.take(i + 1) =~= b@.take(i as int).push(b@[i as int]));
        i = i + 1;
    }
    assert(b@.take(i as int) =~= b@);
    out
}

/// Whether two byte strings are equal, compared in full.
pub fn same_bytes(a: &[u8], b: &[u8]) -> (r: bool)
    ensures
        r == (a@ == b@),
{
    if a.len() != b.len() {
        return false;
    }
    let mut i: usize = 0;
    while i < a.len()
        invariant
            a@.len() == b@.len(),
            i <= a@.len(),
            a@.take(i as int) == b@.take(i as int),
        decreases a.len() - i,
    {
        if a[i] != b[i] {
            assert(a@.take(i + 1)[i as int] != b@.take(i + 1)[i as int]);
            return false;
        }
        assert(a@.take(i + 1) =~= a@.take(i as int).push(a@[i as int]));
        assert(b@.take(i + 1) =~= b@.take(i as int).push(b@[i as int]));
        i = i + 1;
    }
    assert(a@.take(a@.len() as int) =~= a@);
    assert(b@.take(b@.len() as int) =~= b@);
    true
}

proof fn lemma_remove_cr_append(a: Seq<u8>, b: Seq<u8>)
    ensures
        remove_cr(a + b) == remove_cr(a) + remove_cr(b),
{
    Seq::filter_distributes_over_add(a, b, |x: u8| x != CR);
}

proof fn lemma_remove_cr_crlf(b: Seq<u8>)
    ensures
        remove_cr(with_crlf(b)) == remove_cr(b),
    decreases b.len(),
{
    if b.len() > 0 {
        let head = if b[0] == LF { seq![CR, LF] } else { seq![b[0]] };
        lemma_remove_cr_crlf(b.drop_first());
        lemma_remove_cr_append(head, with_crlf(b.drop_first()));
        assert(b =~= seq![b[0]] + b.drop_first());
        lemma_remove_cr_append(seq![b[0]], b.drop_first());
        reveal_with_fuel(Seq::filter, 3);
        assert(seq![CR, LF].drop_last() =~= seq![CR]);
        assert(seq![CR].drop_last() =~= Seq::<u8>::empty());
    }
}

/// Two files whose bytes differ only in carriage returns have the same digest.
pub proof fn lemma_digest_ignores_cr(a: Seq<u8>, b: Seq<u8>)
    requires
        remove_cr(a) == remove_cr(b),
    ensures
        digest_of(a) == digest_of(b),
{
}

/// A text saved with `\r\n` line endings has the digest of the same text saved
/// with `\n` line endings.
pub proof fn lemma_line_endings(text: Seq<u8>)
    ensures
        digest_of(with_crlf(text)) == digest_of(text),
{
    lemma_remove_cr_crlf(text);
}

} // verus!
