use image::{DynamicImage, GrayImage, ImageFormat, Luma, Rgb, RgbImage};
use pipes_rs::{jpeg, picture};

/// A picture of 16 by 16 pixels in one scan of three components.
fn colored() -> Vec<u8> {
    let mut bytes = std::io::Cursor::new(Vec::new());
    let image = RgbImage::from_fn(16, 16, |x, y| Rgb([16 * x as u8, 16 * y as u8, 90]));
    let image = DynamicImage::ImageRgb8(image);
    image.write_to(&mut bytes, ImageFormat::Jpeg).unwrap();
    bytes.into_inner()
}

/// A picture of 16 by 16 pixels in one scan of one component.
fn grey() -> Vec<u8> {
    let mut bytes = std::io::Cursor::new(Vec::new());
    let image = GrayImage::from_fn(16, 16, |x, y| Luma([8 * (x + y) as u8]));
    let image = DynamicImage::ImageLuma8(image);
    image.write_to(&mut bytes, ImageFormat::Jpeg).unwrap();
    bytes.into_inner()
}

/// Where the first segment with a marker begins.
fn find(bytes: &[u8], marker: u8) -> usize {
    let mut at = 2;
    while bytes[at + 1] != marker {
        at += 2 + usize::from(bytes[at + 2]) * 256 + usize::from(bytes[at + 3]);
    }
    at
}

/// Where the picture data begins.
fn data_start(bytes: &[u8]) -> usize {
    let scan = find(bytes, 0xda);
    scan + 2 + usize::from(bytes[scan + 3])
}

fn with(mut bytes: Vec<u8>, at: usize, value: u8) -> Vec<u8> {
    bytes[at] = value;
    bytes
}

fn insert(mut bytes: Vec<u8>, at: usize, more: &[u8]) -> Vec<u8> {
    bytes.splice(at..at, more.iter().copied());
    bytes
}

#[test]
fn common_pictures_can_be_decoded() {
    for bytes in [colored(), grey()] {
        assert!(jpeg::can_decode(&bytes));
        let picture = picture::decode_picture(&bytes).unwrap();
        assert_eq!((picture.width, picture.height), (16, 16));
    }
}

#[test]
fn what_is_no_jpeg_file_is_refused_by_the_decoder() {
    for bytes in [&b""[..], b"no picture", b"\xff\xd8", b"\x89PNG\r\n\x1a\n\0\0\0\0"] {
        assert!(jpeg::can_decode(bytes));
        assert!(picture::decode_picture(bytes).is_err());
    }
}

#[test]
fn the_first_component_may_be_sampled_more_often() {
    let bytes = colored();
    let first = find(&bytes, 0xc0) + 11;
    for sampling in [0x12, 0x21, 0x22, 0x41, 0x13, 0x14, 0x24, 0x42, 0x44] {
        let bytes = with(bytes.clone(), first, sampling);
        assert!(jpeg::can_decode(&bytes));
        let picture = picture::decode_picture(&bytes).unwrap();
        assert_eq!((picture.width, picture.height), (16, 16));
    }
}

#[test]
fn later_components_are_sampled_as_the_first_or_once() {
    let bytes = colored();
    let frame = find(&bytes, 0xc0);
    assert!(!jpeg::can_decode(&with(bytes.clone(), frame + 14, 0x22)));
    assert!(!jpeg::can_decode(&with(bytes.clone(), frame + 17, 0x21)));
    let twice = with(bytes.clone(), frame + 11, 0x22);
    for sampling in [0x11, 0x12, 0x21, 0x22] {
        let bytes = with(twice.clone(), frame + 14, sampling);
        assert!(jpeg::can_decode(&bytes));
        assert!(picture::decode_picture(&bytes).is_ok());
    }
    let often = with(bytes, frame + 11, 0x44);
    assert!(!jpeg::can_decode(&with(often, frame + 14, 0x22)));
}

#[test]
fn a_sampled_single_component_is_rounded_up() {
    let bytes = grey();
    let frame = find(&bytes, 0xc0);
    let twice = with(bytes.clone(), frame + 11, 0x22);
    assert!(jpeg::can_decode(&twice));
    let picture = picture::decode_picture(&twice).unwrap();
    assert_eq!((picture.width, picture.height), (16, 16));
    for (sampling, width, admitted) in [
        (0x11, [0xff, 0xff], true),
        (0x21, [0xff, 0xf8], true),
        (0x21, [0xff, 0xf9], false),
    ] {
        let mut wide = with(bytes.clone(), frame + 11, sampling);
        wide[frame + 7..frame + 9].copy_from_slice(&width);
        assert_eq!(jpeg::can_decode(&wide), admitted);
    }
}

#[test]
fn a_malformed_file_whose_scan_names_one_component_is_not_admitted() {
    let mut bytes = vec![0xff, 0xd8, 0xff, 0xdb, 0, 67, 0];
    bytes.extend([1; 64]);
    bytes.extend([0xff, 0xc0, 0, 17, 8, 0, 16, 0, 16, 3]);
    bytes.extend([1, 0x11, 0, 2, 0x22, 0, 3, 0x11, 0]);
    for class in [0x00, 0x10] {
        bytes.extend([0xff, 0xc4, 0, 20, class, 1]);
        bytes.extend([0; 15]);
        bytes.push(0);
    }
    bytes.extend([0xff, 0xda, 0, 8, 1, 1, 0, 0, 63, 0]);
    bytes.extend([0, 0, 0xff, 0xd9]);
    assert!(!jpeg::can_decode(&bytes));
}

#[test]
fn one_scan_names_all_components() {
    let bytes = colored();
    let scan = find(&bytes, 0xda);
    let mut one = bytes[..scan].to_vec();
    one.extend([0xff, 0xda, 0, 8, 1, 1, 0, 0, 63, 0]);
    one.extend(&bytes[data_start(&bytes)..]);
    assert!(!jpeg::can_decode(&one));
    // Progressive scans may name them one by one.
    let frame = find(&one, 0xc0);
    let progressive = with(one, frame + 1, 0xc2);
    assert!(jpeg::can_decode(&progressive));
}

#[test]
fn frames_that_the_decoder_refuses_are_admitted() {
    let bytes = colored();
    let frame = find(&bytes, 0xc0);
    // Twelve bits; no height; no width; no component; five; a length of no frame;
    // a component that is sampled three times across, one that is not sampled.
    for (at, value) in [
        (4, 12),
        (6, 0),
        (8, 0),
        (9, 0),
        (9, 5),
        (9, 2),
        (11, 0x31),
        (14, 0x10),
    ] {
        let bytes = with(bytes.clone(), frame + at, value);
        assert!(jpeg::can_decode(&bytes));
        assert!(picture::decode_picture(&bytes).is_err());
    }
    // Two frames.
    let twice = insert(bytes.clone(), frame, &bytes[frame..frame + 19]);
    assert!(jpeg::can_decode(&twice));
    assert!(picture::decode_picture(&twice).is_err());
    // None.
    let mut none = bytes;
    none.drain(frame..frame + 19);
    assert!(jpeg::can_decode(&none));
    assert!(picture::decode_picture(&none).is_err());
}

#[test]
fn two_components_are_not_admitted() {
    let bytes = colored();
    let frame = find(&bytes, 0xc0);
    let mut two = bytes;
    two.drain(frame + 16..frame + 19);
    two[frame + 3] = 14;
    two[frame + 9] = 2;
    assert!(!jpeg::can_decode(&two));
}

#[test]
fn four_components_are_sampled_once() {
    let bytes = colored();
    let frame = find(&bytes, 0xc0);
    let mut four = insert(bytes, frame + 19, &[4, 0x11, 0]);
    four[frame + 3] = 20;
    four[frame + 9] = 4;
    let scan = find(&four, 0xda);
    let mut four = insert(four, scan + 11, &[4, 0x00]);
    four[scan + 3] = 14;
    four[scan + 4] = 4;
    assert!(jpeg::can_decode(&four));
    assert!(picture::decode_picture(&four).is_ok());
    assert!(!jpeg::can_decode(&with(four, frame + 11, 0x22)));
}

#[test]
fn files_cut_off_before_the_data_are_refused_by_the_decoder() {
    let bytes = colored();
    for length in 3..data_start(&bytes) {
        assert!(jpeg::can_decode(&bytes[..length]), "{length}");
        assert!(picture::decode_picture(&bytes[..length]).is_err(), "{length}");
    }
    for length in data_start(&bytes)..bytes.len() {
        assert!(jpeg::can_decode(&bytes[..length]), "{length}");
        assert!(picture::decode_picture(&bytes[..length]).is_ok(), "{length}");
    }
}

#[test]
fn segments_follow_without_a_gap() {
    let bytes = colored();
    let frame = find(&bytes, 0xc0);
    assert!(!jpeg::can_decode(&insert(bytes.clone(), frame, &[7])));
    assert!(!jpeg::can_decode(&insert(bytes.clone(), frame, &[0xff])));
    assert!(!jpeg::can_decode(&insert(bytes.clone(), frame, &[0xff, 0])));
    // A comment is no gap.
    let comment = insert(bytes, frame, &[0xff, 0xfe, 0, 4, 1, 2]);
    assert!(jpeg::can_decode(&comment));
    assert!(picture::decode_picture(&comment).is_ok());
}

#[test]
fn a_short_jfif_segment_is_not_admitted() {
    for content in 0..8 {
        let mut segment = vec![0xff, 0xe0, 0, 2 + content as u8];
        segment.extend(vec![1; content]);
        let bytes = insert(colored(), 2, &segment);
        assert_eq!(jpeg::can_decode(&bytes), content != 4);
        if content != 4 {
            assert!(picture::decode_picture(&bytes).is_ok());
        }
    }
}

#[test]
fn adobe_colors_come_before_the_frame_of_one_component() {
    let adobe = [
        0xff, 0xee, 0, 14, b'A', b'd', b'o', b'b', b'e', 0, 100, 0, 0, 0, 0, 1,
    ];
    let bytes = grey();
    let before = insert(bytes.clone(), find(&bytes, 0xc0), &adobe);
    assert!(jpeg::can_decode(&before));
    assert!(picture::decode_picture(&before).is_ok());
    let behind = insert(bytes.clone(), find(&bytes, 0xda), &adobe);
    assert!(!jpeg::can_decode(&behind));
    let bytes = colored();
    let behind = insert(bytes.clone(), find(&bytes, 0xda), &adobe);
    assert!(jpeg::can_decode(&behind));
    assert!(picture::decode_picture(&behind).is_ok());
}

#[test]
fn mean_values_stay_within_the_limit() {
    // A picture of 1920 by 1280 pixels has 38400 blocks.
    let bytes = colored();
    let frame = find(&bytes, 0xc0);
    let table = find(&bytes, 0xdb);
    let mut large = bytes.clone();
    large[frame + 5..frame + 9].copy_from_slice(&[5, 0, 7, 128]);
    assert!(jpeg::can_decode(&with(large.clone(), table + 5, 27)));
    assert!(!jpeg::can_decode(&with(large.clone(), table + 5, 28)));
    // In progressive scans the values are kept small.
    let progressive = with(large, frame + 1, 0xc2);
    assert!(jpeg::can_decode(&with(progressive, table + 5, 28)));
    // Tables of two bytes for each step.
    assert!(!jpeg::can_decode(&with(bytes.clone(), table + 4, 0x10)));
    // Another length than that of tables of bytes.
    let longer = insert(bytes, table + 69, &[0]);
    assert!(!jpeg::can_decode(&with(longer, table + 3, 68)));
}

#[test]
fn mean_values_differ_by_eleven_bits() {
    let bytes = colored();
    let table = find(&bytes, 0xc4);
    assert_eq!(bytes[table + 4], 0);
    let last = table + 1 + usize::from(bytes[table + 3]);
    assert_eq!(bytes[last], 11);
    assert!(jpeg::can_decode(&bytes));
    assert!(!jpeg::can_decode(&with(bytes.clone(), last, 12)));
    // Other tables hold wider symbols.
    assert!(jpeg::can_decode(&with(bytes, table + 4, 0x10)));
}

#[test]
fn data_holds_no_marker_but_restarts() {
    let bytes = colored();
    let data = data_start(&bytes);
    for (marker, admitted) in [
        (0x00, true),
        (0xd0, true),
        (0xd7, true),
        (0xd9, true),
        (0xc4, false),
        (0xd8, false),
        (0xda, false),
        (0xdb, false),
        (0xe1, false),
    ] {
        let marked = insert(bytes.clone(), data, &[0xff, marker]);
        assert_eq!(jpeg::can_decode(&marked), admitted, "{marker}");
        if admitted {
            assert!(picture::decode_picture(&marked).is_ok());
        }
    }
    // What stands behind the picture is not read.
    let mut two = bytes.clone();
    two.extend(&bytes);
    assert!(jpeg::can_decode(&two));
    assert!(picture::decode_picture(&two).is_ok());
}

/// Decodes the file with each of its bytes replaced, where it is still admitted.
fn decode_replaced(bytes: &[u8]) -> usize {
    let frame = find_frame(bytes);
    let mut admitted = 0;
    for at in 2..bytes.len() {
        if (frame + 5..frame + 9).contains(&at) {
            continue;
        }
        for value in [0, 1, 0x11, 0x22, 0x55, 0xda, bytes[at] ^ 0x80, 0xff] {
            let replaced = with(bytes.to_vec(), at, value);
            if jpeg::can_decode(&replaced) {
                admitted += 1;
                if let Ok(picture) = picture::decode_picture(&replaced) {
                    assert!(picture.width <= 16 && picture.height <= 16);
                }
            }
        }
    }
    admitted
}

fn find_frame(bytes: &[u8]) -> usize {
    let mut at = 2;
    while !(0xc0..=0xc2).contains(&bytes[at + 1]) {
        at += 2 + usize::from(bytes[at + 2]) * 256 + usize::from(bytes[at + 3]);
    }
    at
}

#[test]
fn admitted_files_with_one_byte_replaced_are_decoded_or_refused() {
    for bytes in [colored(), grey()] {
        let frame = find_frame(&bytes);
        assert!(decode_replaced(&bytes) > 2_000);
        assert!(decode_replaced(&with(bytes.clone(), frame + 1, 0xc2)) > 2_000);
    }
    let bytes = colored();
    let first = find_frame(&bytes) + 11;
    for sampling in [0x12, 0x21, 0x22, 0x42] {
        assert!(decode_replaced(&with(bytes.clone(), first, sampling)) > 2_000);
    }
}
