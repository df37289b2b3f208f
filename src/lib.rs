use vstd::prelude::*;
use crate::helpers::{chunks, triples, PpmPixelChunks};
use crate::parse::{is_whitespace, lex, spec_is_whitespace, PpmChannelValues};
use crate::stream::{ByteEvent, ByteStream};

pub mod stream;
pub mod parse;
pub mod helpers;
pub mod text;

verus! {

/// Declares std's `io::ErrorKind` so that a read failure can travel through the parser.
#[verifier::external_type_specification]
#[verifier::external_body]
pub struct ExErrorKind(std::io::ErrorKind);

/// Ways in which decoding a P3 pixmap can fail.
#[derive(Debug, Clone, Copy)]
pub enum PpmLoadError {
    FormatError,
    OverflowError,
    Truncated,
    Unknown,
    Io(std::io::ErrorKind),
}

pub type PpmLoadResult<T> = Result<T, PpmLoadError>;

/// One pixel: red, green and blue channel values.
#[derive(PartialEq, Eq, Structural, Clone, Copy, Debug)]
pub struct PpmPixel(pub u32, pub u32, pub u32);

/// The three header fields of a P3 pixmap.
#[derive(PartialEq, Eq, Structural, Clone, Copy, Debug)]
pub struct PpmHeader {
    pub width: u32,
    pub height: u32,
    pub depth: u32,
}

/// An image type that can be built from a decoded header and a stream of
/// pixels. The builder pulls as many pixels as it wants.
pub trait FromPpm: Sized {
    fn from_ppm(width: u32, height: u32, depth: u32, pixels: &mut PpmPixelChunks) -> PpmLoadResult<
        Self,
    >
        requires
            old(pixels).wf(),
    ;
}

/// ASCII `P`, `3`.
pub open spec fn is_magic(b0: u8, b1: u8) -> bool {
    b0 == 80u8 && b1 == 51u8
}

/// The values of the body: everything after the magic and its separator.
pub open spec fn body_values(s: Seq<u8>, fault: Option<std::io::ErrorKind>) -> Seq<
    PpmLoadResult<u32>,
> {
    lex(s.skip(3), fault, None)
}

/// The outcome of reading the header of the bytes `s` of a source that
/// reports `fault` at its end: three bytes `P`, `3` and whitespace, then
/// width, height and depth, none of them zero.
pub open spec fn header_spec(s: Seq<u8>, fault: Option<std::io::ErrorKind>) -> PpmLoadResult<
    PpmHeader,
> {
    if s.len() < 3 {
        match fault {
            Some(kind) => Err(PpmLoadError::Io(kind)),
            None => Err(PpmLoadError::Truncated),
        }
    } else if !is_magic(s[0], s[1]) || !spec_is_whitespace(s[2]) {
        Err(PpmLoadError::FormatError)
    } else {
        let v = body_values(s, fault);
        if v.len() == 0 {
            Err(PpmLoadError::Truncated)
        } else if v[0] is Err {
            Err(v[0]->Err_0)
        } else if v.len() == 1 {
            Err(PpmLoadError::Truncated)
        } else if v[1] is Err {
            Err(v[1]->Err_0)
        } else if v.len() == 2 {
            Err(PpmLoadError::Truncated)
        } else if v[2] is Err {
            Err(v[2]->Err_0)
        } else if v[0]->Ok_0 == 0 || v[1]->Ok_0 == 0 || v[2]->Ok_0 == 0 {
            Err(PpmLoadError::FormatError)
        } else {
            Ok(PpmHeader { width: v[0]->Ok_0, height: v[1]->Ok_0, depth: v[2]->Ok_0 })
        }
    }
}

/// The pixels that follow a valid header.
pub open spec fn body_pixels(s: Seq<u8>, fault: Option<std::io::ErrorKind>) -> Seq<
    PpmLoadResult<PpmPixel>,
> {
    triples(body_values(s, fault).skip(3))
}

/// Reads one of the three header bytes.
fn read_header_byte(reader: &mut ByteStream) -> (r: PpmLoadResult<u8>)
    requires
        old(reader).wf(),
    ensures
        final(reader).wf(),
        final(reader).end_fault() == old(reader).end_fault(),
        old(reader).rest().len() > 0 ==> r == Ok::<u8, PpmLoadError>(old(reader).rest()[0])
            && final(reader).rest() == old(reader).rest().skip(1),
        old(reader).rest().len() == 0 && old(reader).end_fault() is None ==> r == Err::<
            u8,
            PpmLoadError,
        >(PpmLoadError::Truncated),
        old(reader).rest().len() == 0 && old(reader).end_fault() is Some ==> r == Err::<
            u8,
            PpmLoadError,
        >(PpmLoadError::Io(old(reader).end_fault()->0)),
{
    let r = match reader.peek() {
        ByteEvent::Byte(byte) => Ok(byte),
        ByteEvent::End => Err(PpmLoadError::Truncated),
        ByteEvent::Fault(kind) => Err(PpmLoadError::Io(kind)),
    };
    reader.advance();
    r
}

/// Reads the magic and the three header fields, and hands back the header
/// with the pixels that follow it, not yet read.
pub fn read_header(reader: ByteStream) -> (r: PpmLoadResult<(PpmHeader, PpmPixelChunks)>)
    requires
        reader.wf(),
    ensures
        match r {
            Ok((header, pixels)) => {
                &&& header_spec(reader.rest(), reader.end_fault()) == Ok::<
                    PpmHeader,
                    PpmLoadError,
                >(header)
                &&& pixels.wf()
                &&& pixels.items() == body_pixels(reader.rest(), reader.end_fault())
            },
            Err(e) => header_spec(reader.rest(), reader.end_fault()) == Err::<
                PpmHeader,
                PpmLoadError,
            >(e),
        },
{
    let ghost s = reader.rest();
    let ghost f = reader.end_fault();
    let mut reader = reader;
    let b0 = match read_header_byte(&mut reader) {
        Ok(b) => b,
        Err(err) => return Err(err),
    };
    let b1 = match read_header_byte(&mut reader) {
        Ok(b) => b,
        Err(err) => return Err(err),
    };
    let b2 = match read_header_byte(&mut reader) {
        Ok(b) => b,
        Err(err) => return Err(err),
    };
    assert(s.skip(1).skip(1).skip(1) =~= s.skip(3));
    if !(b0 == 80u8 && b1 == 51u8) {
        return Err(PpmLoadError::FormatError);
    }
    if !is_whitespace(b2) {
        return Err(PpmLoadError::FormatError);
    }
    let mut values = PpmChannelValues::new(reader);
    let ghost v = values.items();
    let width = match values.next() {
        Some(Ok(x)) => x,
        Some(Err(err)) => return Err(err),
        None => return Err(PpmLoadError::Truncated),
    };
    let height = match values.next() {
        Some(Ok(x)) => x,
        Some(Err(err)) => return Err(err),
        None => return Err(PpmLoadError::Truncated),
    };
    let depth = match values.next() {
        Some(Ok(x)) => x,
        Some(Err(err)) => return Err(err),
        None => return Err(PpmLoadError::Truncated),
    };
    if width == 0 || height == 0 || depth == 0 {
        return Err(PpmLoadError::FormatError);
    }
    assert(v.skip(1).skip(1).skip(1) =~= v.skip(3));
    Ok((PpmHeader { width, height, depth }, chunks(values)))
}

/// Decodes a P3 pixmap from `reader`, handing the header and the lazy pixel
/// stream to `T`'s builder. A bad header fails as `header_spec` says, before
/// the builder runs; otherwise the builder's result is returned.
pub fn read_ppm<T: FromPpm>(reader: ByteStream) -> (r: PpmLoadResult<T>)
    requires
        reader.wf(),
    ensures
        header_spec(reader.rest(), reader.end_fault()) is Err ==> r == Err::<T, PpmLoadError>(
            header_spec(reader.rest(), reader.end_fault())->Err_0,
        ),
{
    match read_header(reader) {
        Ok((header, pixels)) => {
            let mut pixels = pixels;
            T::from_ppm(header.width, header.height, header.depth, &mut pixels)
        },
        Err(err) => Err(err),
    }
}

} // verus!
