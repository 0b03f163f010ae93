//! Content fingerprints: a whole-file content hash (as lower-case hex), the
//! normalisation of a remote entity tag, and the conservative content-equality
//! rule used by the reconciler.  A normalised tag that still holds a hyphen is
//! a composite (multipart) token, not a whole-file hash, so it never matches.

use vstd::prelude::*;
use vstd::string::*;
use md5::{Digest, Md5};
use crate::text::{
    trim_char, trim_matching, contains_char, eq_ignore_ascii, seq_eq_nocase, chars_eq_nocase,
    lemma_trim_keeps, lemma_trim_noop, lemma_trim_quoted,
};

verus! {

/// The 16-byte MD5 digest of `data`.  Left uninterpreted: the value is
/// whatever the hash function computes, a function of `data` alone.
pub uninterp spec fn md5_of(data: Seq<u8>) -> Seq<u8>;

/// Relies on the `md5` library (`md-5` package): `Md5` computes the MD5
/// digest of the bytes fed to it, a 16-byte value determined by those bytes
/// alone.
#[verifier::external_body]
fn md5_digest(data: &[u8]) -> (r: Vec<u8>)
    ensures
        r@ == md5_of(data@),
        r@.len() == 16,
{
    let mut hasher = Md5::new();
    hasher.update(data);
    hasher.finalize().to_vec()
}

/// The lower-case hex digit for a value below 16.
pub open spec fn hex_digit(v: u8) -> char {
    if v == 0 { '0' }
    else if v == 1 { '1' }
    else if v == 2 { '2' }
    else if v == 3 { '3' }
    else if v == 4 { '4' }
    else if v == 5 { '5' }
    else if v == 6 { '6' }
    else if v == 7 { '7' }
    else if v == 8 { '8' }
    else if v == 9 { '9' }
    else if v == 10 { 'a' }
    else if v == 11 { 'b' }
    else if v == 12 { 'c' }
    else if v == 13 { 'd' }
    else if v == 14 { 'e' }
    else { 'f' }
}

/// The lower-case hex encoding of `bytes`, two digits per byte.
pub open spec fn hex_of(bytes: Seq<u8>) -> Seq<char>
    decreases bytes.len(),
{
    if bytes.len() == 0 {
        Seq::empty()
    } else {
        hex_of(bytes.drop_last()) + seq![hex_digit(bytes.last() / 16), hex_digit(bytes.last() % 16)]
    }
}

/// The hex-encoded MD5 digest of `data`.
pub open spec fn md5_hex_of(data: Seq<u8>) -> Seq<char> {
    hex_of(md5_of(data))
}

/// Whether `c` is a lower-case hex digit.
pub open spec fn is_lower_hex(c: char) -> bool {
    (48 <= c as u32 && c as u32 <= 57) || (97 <= c as u32 && c as u32 <= 102)
}

/// The hex encoding is twice as long as its input.
pub proof fn lemma_hex_of_len(bytes: Seq<u8>)
    ensures
        hex_of(bytes).len() == 2 * bytes.len(),
    decreases bytes.len(),
{
    if bytes.len() > 0 {
        lemma_hex_of_len(bytes.drop_last());
    }
}

/// Every character of a hex encoding is a lower-case hex digit.
pub proof fn lemma_hex_of_lower(bytes: Seq<u8>)
    ensures
        forall|i: int| 0 <= i < hex_of(bytes).len() ==> is_lower_hex(#[trigger] hex_of(bytes)[i]),
    decreases bytes.len(),
{
    if bytes.len() > 0 {
        lemma_hex_of_lower(bytes.drop_last());
        let pre = hex_of(bytes.drop_last());
        let two = seq![hex_digit(bytes.last() / 16), hex_digit(bytes.last() % 16)];
        assert(bytes.last() / 16 < 16);
        assert(bytes.last() % 16 < 16);
        assert(is_lower_hex(hex_digit(bytes.last() / 16)));
        assert(is_lower_hex(hex_digit(bytes.last() % 16)));
        assert forall|i: int| 0 <= i < hex_of(bytes).len() implies is_lower_hex(
            hex_of(bytes)[i],
        ) by {
            assert(hex_of(bytes) == pre + two);
            if i < pre.len() {
                assert(hex_of(bytes)[i] == pre[i]);
            } else {
                assert(hex_of(bytes)[i] == two[i - pre.len()]);
            }
        }
    }
}

/// A hex-encoded digest holds neither a hyphen nor a quote.
pub proof fn lemma_hex_of_clean(bytes: Seq<u8>)
    ensures
        !hex_of(bytes).contains('-'),
        !hex_of(bytes).contains('"'),
{
    lemma_hex_of_lower(bytes);
    if hex_of(bytes).contains('-') {
        let i = choose|i: int| 0 <= i < hex_of(bytes).len() && hex_of(bytes)[i] == '-';
        assert(is_lower_hex(hex_of(bytes)[i]));
    }
    if hex_of(bytes).contains('"') {
        let i = choose|i: int| 0 <= i < hex_of(bytes).len() && hex_of(bytes)[i] == '"';
        assert(is_lower_hex(hex_of(bytes)[i]));
    }
}

/// Computes the hex-encoded MD5 content fingerprint of a byte buffer.  The
/// caller streams or reads the file and hands its bytes in; the fingerprint
/// does not depend on how the bytes were chunked while reading.
pub fn md5_hex(data: &[u8]) -> (r: String)
    ensures
        r@ == md5_hex_of(data@),
        r@.len() == 32,
{
    let d = md5_digest(data);
    let mut out = String::new();
    let mut i: usize = 0;
    while i < d.len()
        invariant
            d@ == md5_of(data@),
            d@.len() == 16,
            i <= 16,
            out@ == hex_of(d@.take(i as int)),
        decreases d@.len() - i,
    {
        let table = "0123456789abcdef";
        proof {
            reveal_strlit("0123456789abcdef");
            assert(table@.len() == 16);
        }
        let b = d[i];
        let hi = b / 16;
        let lo = b % 16;
        assert(hi < 16);
        assert(lo < 16);
        let hs = table.substring_char(hi as usize, hi as usize + 1);
        let ls = table.substring_char(lo as usize, lo as usize + 1);
        proof {
            assert(hs@ =~= seq![hex_digit(hi)]);
            assert(ls@ =~= seq![hex_digit(lo)]);
        }
        out.append(hs);
        out.append(ls);
        proof {
            assert(d@.take(i + 1).drop_last() =~= d@.take(i as int));
            assert(d@.take(i + 1).last() == d@[i as int]);
            assert(out@ =~= hex_of(d@.take(i + 1)));
        }
        i += 1;
    }
    proof {
        assert(d@.take(16) =~= d@);
        lemma_hex_of_len(md5_of(data@));
    }
    out
}

/// The conservative content-equality rule: strip surrounding quotes from the
/// remote tag; a tag that still holds a hyphen is a composite token and never
/// matches; otherwise compare the two hex strings ignoring ASCII case.
pub open spec fn checksums_match(local: Seq<char>, etag: Seq<char>) -> bool {
    let norm = trim_char(etag, '"');
    !norm.contains('-') && seq_eq_nocase(local, norm)
}

/// Strips surrounding quote characters from a raw entity tag.
pub fn normalize_remote_tag(etag: &str) -> (r: String)
    ensures
        r@ == trim_char(etag@, '"'),
{
    trim_matching(etag, '"')
}

/// Decides whether a local content fingerprint and a raw remote entity tag
/// denote the same content, per the conservative rule above.
pub fn compare_checksums(local_md5: &str, etag: &str) -> (r: bool)
    ensures
        r == checksums_match(local_md5@, etag@),
{
    let clean = trim_matching(etag, '"');
    if contains_char(clean.as_str(), '-') {
        return false;
    }
    eq_ignore_ascii(local_md5, clean.as_str())
}

/// Fingerprint conservatism: a remote tag holding a hyphen matches no local
/// digest, whatever that digest is.
pub proof fn lemma_multipart_tag_never_matches(local: Seq<char>, etag: Seq<char>)
    requires
        etag.contains('-'),
    ensures
        !checksums_match(local, etag),
{
    lemma_trim_keeps(etag, '"', '-');
}

/// A digest free of hyphens and quotes matches itself, bare or surrounded by
/// quotes — the shape a store reports for a whole-file upload.
pub proof fn lemma_clean_digest_matches_self(d: Seq<char>)
    requires
        !d.contains('-'),
        !d.contains('"'),
    ensures
        checksums_match(d, d),
        checksums_match(d, seq!['"'] + d + seq!['"']),
{
    lemma_trim_noop(d, '"');
    lemma_trim_quoted(d, '"');
}

} // verus!
