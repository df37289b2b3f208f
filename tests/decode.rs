use ppm3::helpers::PpmPixelChunks;
use ppm3::stream::ByteStream;
use ppm3::{read_header, read_ppm, FromPpm, PpmLoadError, PpmLoadResult, PpmPixel};

struct MockImageType {
    width: u32,
    height: u32,
    pixels: Vec<PpmPixel>,
}

impl FromPpm for MockImageType {
    fn from_ppm(
        width: u32,
        height: u32,
        _depth: u32,
        pixels: &mut PpmPixelChunks,
    ) -> PpmLoadResult<MockImageType> {
        if 0xFFF < width {
            return Err(PpmLoadError::FormatError);
        }
        if 0xFFF < height {
            return Err(PpmLoadError::FormatError);
        }
        if 0xFFFFF < width * height {
            return Err(PpmLoadError::FormatError);
        }

        let mut pixel_buf = Vec::with_capacity((width * height) as usize);
        while let Some(pixel) = pixels.next_pixel() {
            pixel_buf.push(pixel?);
        }

        Ok(MockImageType {
            width: width,
            height: height,
            pixels: pixel_buf,
        })
    }
}

fn decode(msg: &[u8]) -> Result<MockImageType, PpmLoadError> {
    read_ppm(ByteStream::new(msg.to_vec()))
}

#[test]
fn test_p3_mock_image() {
    let msg = b"P3\n3 4 255\n
         77 240 254  44 195  39  57  85 152  80 159 188
        164 165 253 161 114 242  69  63  89  33 160 214
        196 139   2 159 164  51 144  70  69  90  55 133";

    let image: MockImageType = decode(&msg[..]).unwrap();
    assert_eq!(image.width, 3);
    assert_eq!(image.height, 4);
    assert_eq!(image.pixels[0], PpmPixel(77, 240, 254));
    assert_eq!(image.pixels[1], PpmPixel(44, 195, 39));
    assert_eq!(image.pixels[2], PpmPixel(57, 85, 152));
    assert_eq!(image.pixels[3], PpmPixel(80, 159, 188));
    assert_eq!(image.pixels[4], PpmPixel(164, 165, 253));
    assert_eq!(image.pixels[5], PpmPixel(161, 114, 242));
    assert_eq!(image.pixels[6], PpmPixel(69, 63, 89));
    assert_eq!(image.pixels[7], PpmPixel(33, 160, 214));
    assert_eq!(image.pixels[8], PpmPixel(196, 139, 2));
    assert_eq!(image.pixels[9], PpmPixel(159, 164, 51));
    assert_eq!(image.pixels[10], PpmPixel(144, 70, 69));
    assert_eq!(image.pixels[11], PpmPixel(90, 55, 133));
}

#[test]
fn afl_000000() {
    let msg = b"P333333333333333\xf1\xf1\xf1\xf1\xf1\xf1\xf1\xf1\xf1\xf1\xf1\xf1\xf1\xf1\xf1\xf1\xf13";
    let res: Result<MockImageType, _> = decode(&msg[..]);
    assert!(res.is_err());
}

#[test]
fn afl_000001() {
    let msg = b"P30\n3\n3\n3\n3\n3";
    let res: Result<MockImageType, _> = decode(&msg[..]);
    assert!(res.is_err());
}

#[test]
fn afl_000002() {
    let msg = b"P333   \n3\n3\n3      6666666666666666666666666666\n3";
    let res: Result<MockImageType, _> = decode(&msg[..]);
    assert!(res.is_err());
}

#[test]
fn afl_000003() {
    let msg = b"P3\n33\n0\n33\n0\n33\n33\n0\n33\n0\n3";
    let _: Result<MockImageType, _> = decode(&msg[..]);
}

#[test]
fn afl_000004() {
    let msg = b"P3\n3\n0\n3\n3\n\n3\n3\n\xb3";
    let res: Result<MockImageType, _> = decode(&msg[..]);
    assert!(res.is_err());
}

#[test]
fn afl_000005() {
    let msg = b"P3\n3\n3555555\n3\n\xa1";
    let res: Result<MockImageType, _> = decode(&msg[..]);
    assert!(res.is_err());
}

#[test]
fn afl_000006() {
    let msg = b"P3\n3\n0\n3\n3\n\n3\n3\n\xb3";
    let res: Result<MockImageType, _> = decode(&msg[..]);
    assert!(res.is_err());
}

#[test]
fn afl_000007() {
    let msg = b"P3\n0\n3\n\n3\n3\n33\n3";
    let res: Result<MockImageType, _> = decode(&msg[..]);
    assert!(res.is_err());
}

#[test]
fn afl_000008() {
    let msg = b"P3\n3 999999999\n3";
    let res: Result<MockImageType, _> = decode(&msg[..]);
    assert!(res.is_err());
}

#[test]
fn afl_000009() {
    let msg = b"P3 0 3 3 3 3 3 3 3 \xbe";
    let res: Result<MockImageType, _> = decode(&msg[..]);
    assert!(res.is_err());
}

#[test]
fn magic_alone_is_truncated() {
    let res: Result<MockImageType, _> = decode(b"P3");
    assert!(matches!(res, Err(PpmLoadError::Truncated)));
}

#[test]
fn byte_after_magic_must_be_whitespace() {
    let res: Result<MockImageType, _> = decode(b"P30\n3\n3\n3\n3\n3");
    assert!(matches!(res, Err(PpmLoadError::FormatError)));
}

#[test]
fn wrong_magic_is_format_error() {
    let res: Result<MockImageType, _> = decode(b"P6\n1 1 1\n1 2 3\n");
    assert!(matches!(res, Err(PpmLoadError::FormatError)));
    let res: Result<MockImageType, _> = decode(b"p3\n1 1 1\n1 2 3\n");
    assert!(matches!(res, Err(PpmLoadError::FormatError)));
}

#[test]
fn bad_byte_inside_token_is_format_error() {
    let res: Result<MockImageType, _> = decode(b"P3\n3\n3555555\n3\n\xa1");
    assert!(matches!(res, Err(PpmLoadError::FormatError)));
    let res: Result<MockImageType, _> = decode(b"P3\n1 1 25x\n");
    assert!(matches!(res, Err(PpmLoadError::FormatError)));
}

#[test]
fn missing_header_fields_are_truncated() {
    let res: Result<MockImageType, _> = decode(b"P3\n");
    assert!(matches!(res, Err(PpmLoadError::Truncated)));
    let res: Result<MockImageType, _> = decode(b"P3\n3 4");
    assert!(matches!(res, Err(PpmLoadError::Truncated)));
    let res: Result<MockImageType, _> = decode(b"P3\n3 4 ");
    assert!(matches!(res, Err(PpmLoadError::Truncated)));
    let res: Result<MockImageType, _> = decode(b"");
    assert!(matches!(res, Err(PpmLoadError::Truncated)));
}

#[test]
fn zero_header_field_is_format_error() {
    let res: Result<MockImageType, _> = decode(b"P3\n3 0 255\n");
    assert!(matches!(res, Err(PpmLoadError::FormatError)));
    let res: Result<MockImageType, _> = decode(b"P3\n3 1 0\n1 2 3 4 5 6 7 8 9\n");
    assert!(matches!(res, Err(PpmLoadError::FormatError)));
}

#[test]
fn oversized_value_is_overflow_error() {
    let res: Result<MockImageType, _> = decode(b"P3\n4294967296 1 1\n");
    assert!(matches!(res, Err(PpmLoadError::OverflowError)));
    let res: Result<MockImageType, _> = decode(b"P3\n1 1 4294967295\n4294967295 0 99999999999\n");
    assert!(matches!(res, Err(PpmLoadError::OverflowError)));
}

#[test]
fn largest_value_is_accepted() {
    let header = read_header(ByteStream::new(b"P3\n4294967295 1 4294967295\n".to_vec()));
    let (header, _) = header.ok().unwrap();
    assert_eq!(header.width, 4294967295);
    assert_eq!(header.height, 1);
    assert_eq!(header.depth, 4294967295);
}

#[test]
fn read_failure_is_io_error() {
    let stream = ByteStream::with_fault(b"P3\n3 4".to_vec(), std::io::ErrorKind::UnexpectedEof);
    let res: Result<MockImageType, _> = read_ppm(stream);
    assert!(matches!(res, Err(PpmLoadError::Io(std::io::ErrorKind::UnexpectedEof))));
    let stream = ByteStream::with_fault(b"P".to_vec(), std::io::ErrorKind::Other);
    let res: Result<MockImageType, _> = read_ppm(stream);
    assert!(matches!(res, Err(PpmLoadError::Io(std::io::ErrorKind::Other))));
}

#[test]
fn read_failure_among_pixels_reaches_builder() {
    let stream = ByteStream::with_fault(b"P3\n2 1 9\n1 2 3 4".to_vec(), std::io::ErrorKind::Interrupted);
    let res: Result<MockImageType, _> = read_ppm(stream);
    assert!(matches!(res, Err(PpmLoadError::Io(std::io::ErrorKind::Interrupted))));
}

#[test]
fn leftover_values_are_dropped() {
    let image: MockImageType = decode(b"P3\n1 1 9\n1 2 3 4 5").unwrap();
    assert_eq!(image.pixels, vec![PpmPixel(1, 2, 3)]);
    let image: MockImageType = decode(b"P3\n1 2 9\n1 2 3 4 5 6 7").unwrap();
    assert_eq!(image.pixels, vec![PpmPixel(1, 2, 3), PpmPixel(4, 5, 6)]);
}

#[test]
fn header_fields_in_order() {
    let (header, mut pixels) = read_header(ByteStream::new(b"P3 7\n\n11 255 10 20 30".to_vec()))
        .ok()
        .unwrap();
    assert_eq!(header.width, 7);
    assert_eq!(header.height, 11);
    assert_eq!(header.depth, 255);
    match pixels.next() {
        Some(Ok(triple)) => assert_eq!(triple, [10, 20, 30]),
        _ => panic!("expected a triple"),
    }
    assert!(pixels.next().is_none());
    assert!(pixels.next().is_none());
}
