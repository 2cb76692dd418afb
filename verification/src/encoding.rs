//! Byte-level text encodings used when building requests for the remote
//! services: `application/x-www-form-urlencoded` query values, percent-encoded
//! URL path segments, and decimal renderings of integers.
//!
//! Everything is assembled as ASCII bytes and turned into a `String` at the
//! end through one small trusted conversion.

use vstd::prelude::*;

verus! {

/// Bytes that `application/x-www-form-urlencoded` leaves unchanged.
pub open spec fn form_unreserved(b: u8) -> bool {
    (48 <= b <= 57)  // '0'..='9'
    || (65 <= b <= 90)  // 'A'..='Z'
    || (97 <= b <= 122)  // 'a'..='z'
    || b == 42  // '*'
    || b == 45  // '-'
    || b == 46  // '.'
    || b == 95  // '_'
}

/// The upper-case hexadecimal digit for a value below 16.
pub open spec fn hex_upper(n: u8) -> u8
    recommends
        n < 16,
{
    if n < 10 {
        (48 + n) as u8
    } else {
        (55 + n) as u8  // 'A' + (n - 10)
    }
}

/// Form-urlencoding of one byte: unreserved bytes stay, a space becomes `+`,
/// everything else becomes `%XX` with upper-case hex digits.
pub open spec fn form_enc_byte(b: u8) -> Seq<u8> {
    if form_unreserved(b) {
        seq![b]
    } else if b == 32 {
        seq![43u8]  // '+'
    } else {
        seq![37u8, hex_upper(b / 16), hex_upper(b % 16)]
    }
}

/// Form-urlencoding of a byte sequence.
pub open spec fn form_enc(s: Seq<u8>) -> Seq<u8>
    decreases s.len(),
{
    if s.len() == 0 {
        Seq::empty()
    } else {
        form_enc(s.drop_last()) + form_enc_byte(s.last())
    }
}

/// ASCII bytes that survive unchanged in a URL path produced by the engine;
/// the complement (controls, space, `"`, `<`, `>`, backquote, `#`, `?`, `{`,
/// `}`, DEL and every non-ASCII byte) is percent-encoded.
pub open spec fn path_kept(b: u8) -> bool {
    32 < b < 127 && b != 34  // '"'
    && b != 35  // '#'
    && b != 60  // '<'
    && b != 62  // '>'
    && b != 63  // '?'
    && b != 96  // '`'
    && b != 123  // '{'
    && b != 125  // '}'
}

/// Path-segment encoding of one byte.
pub open spec fn path_enc_byte(b: u8) -> Seq<u8> {
    if path_kept(b) {
        seq![b]
    } else {
        seq![37u8, hex_upper(b / 16), hex_upper(b % 16)]
    }
}

/// Path-segment encoding of a byte sequence.
pub open spec fn path_enc(s: Seq<u8>) -> Seq<u8>
    decreases s.len(),
{
    if s.len() == 0 {
        Seq::empty()
    } else {
        path_enc(s.drop_last()) + path_enc_byte(s.last())
    }
}

/// Decimal digits of a natural number, most significant first.
pub open spec fn dec_nat(n: nat) -> Seq<u8>
    decreases n,
{
    if n < 10 {
        seq![(48 + n) as u8]
    } else {
        dec_nat(n / 10) + seq![(48 + n % 10) as u8]
    }
}

/// Decimal rendering of a signed number: a leading `-` for negatives.
pub open spec fn dec_int(n: int) -> Seq<u8> {
    if n >= 0 {
        dec_nat(n as nat)
    } else {
        seq![45u8] + dec_nat((-n) as nat)
    }
}

/// A sequence of bytes is ASCII.
pub open spec fn all_ascii(s: Seq<u8>) -> bool {
    forall|i: int| 0 <= i < s.len() ==> s[i] < 128
}

/// The characters spelled by a sequence of ASCII bytes.
pub open spec fn chars_of(s: Seq<u8>) -> Seq<char> {
    s.map_values(|b: u8| b as char)
}

pub proof fn lemma_form_enc_ascii(s: Seq<u8>)
    ensures
        all_ascii(form_enc(s)),
    decreases s.len(),
{
    if s.len() > 0 {
        lemma_form_enc_ascii(s.drop_last());
    }
}

pub proof fn lemma_path_enc_ascii(s: Seq<u8>)
    ensures
        all_ascii(path_enc(s)),
    decreases s.len(),
{
    if s.len() > 0 {
        lemma_path_enc_ascii(s.drop_last());
    }
}

pub proof fn lemma_dec_nat_ascii(n: nat)
    ensures
        all_ascii(dec_nat(n)),
    decreases n,
{
    if n >= 10 {
        lemma_dec_nat_ascii(n / 10);
    }
}

pub proof fn lemma_dec_int_ascii(n: int)
    ensures
        all_ascii(dec_int(n)),
{
    if n >= 0 {
        lemma_dec_nat_ascii(n as nat);
    } else {
        lemma_dec_nat_ascii((-n) as nat);
    }
}

/// Appends the upper-case hex pair for one byte.
fn push_hex_pair(out: &mut Vec<u8>, b: u8)
    ensures
        final(out)@ == old(out)@ + seq![37u8, hex_upper(b / 16), hex_upper(b % 16)],
{
    out.push(37);
    let hi = b / 16;
    let lo = b % 16;
    out.push(if hi < 10 { 48 + hi } else { 55 + hi });
    out.push(if lo < 10 { 48 + lo } else { 55 + lo });
    assert(out@ =~= old(out)@ + seq![37u8, hex_upper(b / 16), hex_upper(b % 16)]);
}

/// Appends the form-urlencoding of `s` to `out`.
pub fn form_urlencode_into(s: &[u8], out: &mut Vec<u8>)
    ensures
        final(out)@ == old(out)@ + form_enc(s@),
{
    let ghost orig = out@;
    let mut i: usize = 0;
    while i < s.len()
        invariant
            i <= s@.len(),
            out@ == orig + form_enc(s@.subrange(0, i as int)),
        decreases s@.len() - i,
    {
        let b = s[i];
        if (48 <= b && b <= 57) || (65 <= b && b <= 90) || (97 <= b && b <= 122) || b == 42 || b
            == 45 || b == 46 || b == 95 {
            out.push(b);
        } else if b == 32 {
            out.push(43);
        } else {
            push_hex_pair(out, b);
        }
        proof {
            assert(s@.subrange(0, i + 1).drop_last() =~= s@.subrange(0, i as int));
            assert(s@.subrange(0, i + 1).last() == b);
            assert(out@ =~= orig + form_enc(s@.subrange(0, i + 1)));
        }
        i = i + 1;
    }
    proof {
        assert(s@.subrange(0, s@.len() as int) =~= s@);
    }
}

/// Appends the path-segment encoding of `s` to `out`.
pub fn path_encode_into(s: &[u8], out: &mut Vec<u8>)
    ensures
        final(out)@ == old(out)@ + path_enc(s@),
{
    let ghost orig = out@;
    let mut i: usize = 0;
    while i < s.len()
        invariant
            i <= s@.len(),
            out@ == orig + path_enc(s@.subrange(0, i as int)),
        decreases s@.len() - i,
    {
        let b = s[i];
        if 32 < b && b < 127 && b != 34 && b != 35 && b != 60 && b != 62 && b != 63 && b != 96 && b
            != 123 && b != 125 {
            out.push(b);
        } else {
            push_hex_pair(out, b);
        }
        proof {
            assert(s@.subrange(0, i + 1).drop_last() =~= s@.subrange(0, i as int));
            assert(s@.subrange(0, i + 1).last() == b);
            assert(out@ =~= orig + path_enc(s@.subrange(0, i + 1)));
        }
        i = i + 1;
    }
    proof {
        assert(s@.subrange(0, s@.len() as int) =~= s@);
    }
}

/// Appends the decimal digits of `n` to `out`.
pub fn push_u64_dec(n: u64, out: &mut Vec<u8>)
    ensures
        final(out)@ == old(out)@ + dec_nat(n as nat),
    decreases n,
{
    if n < 10 {
        out.push(48 + n as u8);
        assert(out@ =~= old(out)@ + dec_nat(n as nat));
    } else {
        push_u64_dec(n / 10, out);
        out.push(48 + (n % 10) as u8);
        assert(out@ =~= old(out)@ + dec_nat(n as nat));
    }
}

/// Appends the decimal rendering of `n`, with a `-` sign for negatives.
pub fn push_i64_dec(n: i64, out: &mut Vec<u8>)
    ensures
        final(out)@ == old(out)@ + dec_int(n as int),
{
    if n >= 0 {
        push_u64_dec(n as u64, out);
    } else {
        out.push(45);
        let mag: u64 = if n == i64::MIN {
            9223372036854775808u64
        } else {
            (-n) as u64
        };
        assert(mag == (-(n as int)) as nat);
        push_u64_dec(mag, out);
        assert(out@ =~= old(out)@ + dec_int(n as int));
    }
}

/// Relies on `String::push`: appends exactly one character.
#[verifier::external_body]
pub fn push_char(s: &mut String, c: char)
    ensures
        final(s)@ == old(s)@.push(c),
{
    s.push(c);
}

/// Relies on `String::from_utf8`: a vector of ASCII bytes decodes to the
/// string whose characters have exactly those code points.
#[verifier::external_body]
pub fn ascii_to_string(v: Vec<u8>) -> (r: String)
    requires
        all_ascii(v@),
    ensures
        r@ == chars_of(v@),
{
    String::from_utf8(v).unwrap()
}

/// The form-urlencoding of a string, over its UTF-8 bytes.
pub open spec fn form_enc_of(s: Seq<char>) -> Seq<char> {
    chars_of(form_enc(vstd::utf8::encode_utf8(s)))
}

/// The path-segment encoding of a string, over its UTF-8 bytes.
pub open spec fn path_enc_of(s: Seq<char>) -> Seq<char> {
    chars_of(path_enc(vstd::utf8::encode_utf8(s)))
}

/// The decimal rendering of an integer, as characters.
pub open spec fn dec_chars(n: int) -> Seq<char> {
    chars_of(dec_int(n))
}

/// Form-urlencodes a string component.
pub fn form_urlencode(s: &str) -> (r: String)
    ensures
        r@ == form_enc_of(s@),
{
    let mut out: Vec<u8> = Vec::new();
    form_urlencode_into(s.as_bytes(), &mut out);
    proof {
        lemma_form_enc_ascii(vstd::utf8::encode_utf8(s@));
    }
    ascii_to_string(out)
}

/// Percent-encodes a string for use as part of a URL path.
pub fn path_encode(s: &str) -> (r: String)
    ensures
        r@ == path_enc_of(s@),
{
    let mut out: Vec<u8> = Vec::new();
    path_encode_into(s.as_bytes(), &mut out);
    proof {
        lemma_path_enc_ascii(vstd::utf8::encode_utf8(s@));
    }
    ascii_to_string(out)
}

/// Renders an unsigned number in decimal.
pub fn u64_to_dec_string(n: u64) -> (r: String)
    ensures
        r@ == dec_chars(n as int),
{
    let mut out: Vec<u8> = Vec::new();
    push_u64_dec(n, &mut out);
    proof {
        lemma_dec_nat_ascii(n as nat);
    }
    ascii_to_string(out)
}

/// Renders a signed number in decimal.
pub fn i64_to_dec_string(n: i64) -> (r: String)
    ensures
        r@ == dec_chars(n as int),
{
    let mut out: Vec<u8> = Vec::new();
    push_i64_dec(n, &mut out);
    proof {
        lemma_dec_int_ascii(n as int);
    }
    ascii_to_string(out)
}

} // verus!
