use vstd::prelude::*;
use crate::helpers::triples;
use crate::parse::lex;
use crate::{body_pixels, body_values, header_spec, PpmHeader, PpmLoadError, PpmLoadResult, PpmPixel};

verus! {

/// The decimal digits of `n`, most significant first, with no leading zero.
pub open spec fn decimal(n: nat) -> Seq<u8>
    decreases n,
{
    if n < 10 {
        seq![(48 + n) as u8]
    } else {
        decimal(n / 10) + seq![(48 + n % 10) as u8]
    }
}

/// A value written as a token followed by a line feed.
pub open spec fn field(n: u32) -> Seq<u8> {
    decimal(n as nat) + seq![10u8]
}

/// The pixels written in order, one field per channel.
pub open spec fn pixels_text(px: Seq<PpmPixel>) -> Seq<u8>
    decreases px.len(),
{
    if px.len() == 0 {
        seq![]
    } else {
        field(px[0].0) + field(px[0].1) + field(px[0].2) + pixels_text(px.skip(1))
    }
}

/// The header fields written after the magic and its line feed.
pub open spec fn header_text(h: PpmHeader) -> Seq<u8> {
    field(h.width) + field(h.height) + field(h.depth)
}

/// A well-formed P3 text for the header `h` and the pixels `px`.
pub open spec fn ppm_text(h: PpmHeader, px: Seq<PpmPixel>) -> Seq<u8> {
    seq![80u8, 51u8, 10u8] + header_text(h) + pixels_text(px)
}

/// Each pixel as a successful item.
pub open spec fn pixel_results(px: Seq<PpmPixel>) -> Seq<PpmLoadResult<PpmPixel>> {
    px.map_values(|p: PpmPixel| Ok::<PpmPixel, PpmLoadError>(p))
}

pub proof fn lemma_decimal_len(n: nat)
    ensures
        decimal(n).len() >= 1,
    decreases n,
{
    if n >= 10 {
        lemma_decimal_len(n / 10);
    }
}

/// Reading the digits of `n` leaves `n` in the accumulator.
pub proof fn lemma_lex_decimal(n: u32, rest: Seq<u8>, fault: Option<std::io::ErrorKind>)
    ensures
        lex(decimal(n as nat) + rest, fault, None) == lex(rest, fault, Some(n)),
    decreases n,
{
    let s = decimal(n as nat) + rest;
    if n < 10 {
        assert(s.skip(1) =~= rest);
        assert(s[0] == (48 + n) as u8);
    } else {
        let d = (48 + n % 10) as u8;
        let tail = seq![d] + rest;
        assert(s =~= decimal((n / 10) as nat) + tail);
        lemma_lex_decimal(n / 10, tail, fault);
        assert(tail.skip(1) =~= rest);
        assert((n / 10) as int * 10 + (n % 10) as int == n as int);
    }
}

/// A field yields its value, then whatever follows it.
pub proof fn lemma_lex_field(n: u32, rest: Seq<u8>, fault: Option<std::io::ErrorKind>)
    ensures
        lex(field(n) + rest, fault, None) == seq![Ok::<u32, PpmLoadError>(n)] + lex(
            rest,
            fault,
            None,
        ),
{
    let tail = seq![10u8] + rest;
    assert(field(n) + rest =~= decimal(n as nat) + tail);
    lemma_lex_decimal(n, tail, fault);
    assert(tail.skip(1) =~= rest);
}

/// Reading the pixels' text yields the pixels, in order.
pub proof fn lemma_pixels_round_trip(px: Seq<PpmPixel>)
    ensures
        triples(lex(pixels_text(px), None, None)) == pixel_results(px),
    decreases px.len(),
{
    if px.len() == 0 {
        assert(pixel_results(px) =~= seq![]);
    } else {
        let p = px[0];
        let rest = pixels_text(px.skip(1));
        assert(pixels_text(px) =~= field(p.0) + (field(p.1) + (field(p.2) + rest)));
        lemma_lex_field(p.2, rest, None);
        lemma_lex_field(p.1, field(p.2) + rest, None);
        lemma_lex_field(p.0, field(p.1) + (field(p.2) + rest), None);
        let v = lex(pixels_text(px), None, None);
        let w = lex(rest, None, None);
        assert(v =~= seq![
            Ok::<u32, PpmLoadError>(p.0),
            Ok::<u32, PpmLoadError>(p.1),
            Ok::<u32, PpmLoadError>(p.2),
        ] + w);
        assert(v.skip(3) =~= w);
        lemma_pixels_round_trip(px.skip(1));
        assert(pixel_results(px) =~= seq![Ok::<PpmPixel, PpmLoadError>(p)] + pixel_results(
            px.skip(1),
        ));
    }
}

/// Decoding a well-formed text with a nonzero header gives back its header,
/// and the builder that pulls every pixel gets the pixels in row-major order,
/// unchanged.
pub proof fn lemma_round_trip(h: PpmHeader, px: Seq<PpmPixel>)
    requires
        h.width > 0,
        h.height > 0,
        h.depth > 0,
        px.len() == h.width * h.height,
    ensures
        header_spec(ppm_text(h, px), None) == Ok::<PpmHeader, PpmLoadError>(h),
        body_pixels(ppm_text(h, px), None) == pixel_results(px),
{
    let s = ppm_text(h, px);
    let pt = pixels_text(px);
    assert(s.skip(3) =~= field(h.width) + (field(h.height) + (field(h.depth) + pt)));
    lemma_lex_field(h.depth, pt, None);
    lemma_lex_field(h.height, field(h.depth) + pt, None);
    lemma_lex_field(h.width, field(h.height) + (field(h.depth) + pt), None);
    let v = body_values(s, None);
    let w = lex(pt, None, None);
    assert(v =~= seq![
        Ok::<u32, PpmLoadError>(h.width),
        Ok::<u32, PpmLoadError>(h.height),
        Ok::<u32, PpmLoadError>(h.depth),
    ] + w);
    assert(v.skip(3) =~= w);
    lemma_pixels_round_trip(px);
}

/// Any input of three bytes or more that does not open with `P3` is
/// rejected as malformed.
pub proof fn lemma_bad_magic(s: Seq<u8>, fault: Option<std::io::ErrorKind>)
    requires
        s.len() >= 3,
        !(s[0] == 80u8 && s[1] == 51u8),
    ensures
        header_spec(s, fault) == Err::<PpmHeader, PpmLoadError>(PpmLoadError::FormatError),
{
}

/// A cut-off run of digits leaves some value in the accumulator, or none when
/// nothing of it is left.
pub proof fn lemma_lex_decimal_prefix(
    n: u32,
    j: int,
    rest: Seq<u8>,
    fault: Option<std::io::ErrorKind>,
)
    requires
        0 <= j <= decimal(n as nat).len(),
    ensures
        j == 0 ==> lex(decimal(n as nat).take(j) + rest, fault, None) == lex(rest, fault, None),
        j > 0 ==> exists|m: u32|
            lex(decimal(n as nat).take(j) + rest, fault, None) == lex(rest, fault, Some(m)),
    decreases n,
{
    let dn = decimal(n as nat);
    if j == 0 {
        assert(dn.take(j) + rest =~= rest);
    } else if j == dn.len() {
        assert(dn.take(j) =~= dn);
        lemma_lex_decimal(n, rest, fault);
    } else {
        let dh = decimal((n / 10) as nat);
        assert(n >= 10);
        assert(dn.take(j) =~= dh.take(j));
        lemma_lex_decimal_prefix(n / 10, j, rest, fault);
    }
}

/// A cut-off field yields nothing, or one value.
pub proof fn lemma_lex_field_prefix(n: u32, j: int)
    requires
        0 <= j <= field(n).len(),
    ensures
        ({
            let v = lex(field(n).take(j), None, None);
            v.len() == 0 || (v.len() == 1 && v[0] is Ok)
        }),
{
    let dn = decimal(n as nat);
    let empty = Seq::<u8>::empty();
    if j <= dn.len() {
        assert(field(n).take(j) =~= dn.take(j) + empty);
        lemma_lex_decimal_prefix(n, j, empty, None);
        if j > 0 {
            let m = choose|m: u32| lex(dn.take(j) + empty, None, None) == lex(empty, None, Some(m));
            assert(lex(empty, None, Some(m)) == seq![Ok::<u32, PpmLoadError>(m)]);
        }
    } else {
        assert(field(n).take(j) =~= field(n) + empty);
        lemma_lex_field(n, empty, None);
        assert(lex(empty, None, None) =~= seq![]);
    }
}

/// A well-formed text cut off before its depth field begins fails as
/// truncated, never as malformed.
pub proof fn lemma_truncated_header(h: PpmHeader, px: Seq<PpmPixel>, k: int)
    requires
        0 <= k <= 3 + field(h.width).len() + field(h.height).len(),
    ensures
        header_spec(ppm_text(h, px).take(k), None) == Err::<PpmHeader, PpmLoadError>(
            PpmLoadError::Truncated,
        ),
{
    let s = ppm_text(h, px);
    let fw = field(h.width);
    let fh = field(h.height);
    let after = field(h.depth) + pixels_text(px);
    if k >= 3 {
        let t = s.take(k);
        let j = k - 3;
        assert(s =~= seq![80u8, 51u8, 10u8] + (fw + (fh + after)));
        assert(t[0] == 80u8 && t[1] == 51u8 && t[2] == 10u8);
        let v = body_values(t, None);
        if j <= fw.len() {
            assert(t.skip(3) =~= fw.take(j));
            lemma_lex_field_prefix(h.width, j);
        } else {
            let jh = j - fw.len();
            assert(t.skip(3) =~= fw + fh.take(jh));
            lemma_lex_field(h.width, fh.take(jh), None);
            lemma_lex_field_prefix(h.height, jh);
            assert(v[0] is Ok);
            if v.len() > 1 {
                assert(v[1] == lex(fh.take(jh), None, None)[0]);
            }
        }
    }
}

} // verus!
