use nxfs::archive::{swap_red_blue, Archive, Bitmap, NodeValue, ValueKind};
use nxfs::content::{encode_bitmap, node_data};
use nxfs::text::{push_decimal, push_digits};

fn red_2x2() -> Bitmap {
    // Four pixels, each red 255, green 0, blue 0, alpha 255.
    let mut pixels = Vec::new();
    for _ in 0..4 {
        pixels.extend_from_slice(&[255, 0, 0, 255]);
    }
    Bitmap::new(2, 2, pixels).unwrap()
}

fn u32_le(b: &[u8]) -> u32 {
    u32::from_le_bytes([b[0], b[1], b[2], b[3]])
}

fn i32_le(b: &[u8]) -> i32 {
    i32::from_le_bytes([b[0], b[1], b[2], b[3]])
}

/// Reads an encoded bitmap back: width, height, and the pixels as red, green,
/// blue, alpha, by the channel masks that the header names.
fn decode(file: &[u8]) -> (u32, u32, Vec<u8>) {
    assert_eq!(&file[0..2], b"BM");
    assert_eq!(u32_le(&file[2..6]) as usize, file.len());
    let data_at = u32_le(&file[10..14]) as usize;
    let width = i32_le(&file[18..22]);
    let height = i32_le(&file[22..26]);
    assert!(width >= 0);
    assert!(height <= 0, "rows are stored from top to bottom");
    assert_eq!(u16::from_le_bytes([file[26], file[27]]), 1);
    assert_eq!(u16::from_le_bytes([file[28], file[29]]), 32);
    assert_eq!(u32_le(&file[30..34]), 3);
    let masks = [
        u32_le(&file[54..58]),
        u32_le(&file[58..62]),
        u32_le(&file[62..66]),
        u32_le(&file[66..70]),
    ];
    let count = (width as usize) * ((-height) as usize);
    assert_eq!(u32_le(&file[34..38]) as usize, 4 * count);
    assert_eq!(file.len(), data_at + 4 * count);
    let mut rgba = Vec::new();
    for p in 0..count {
        let v = u32_le(&file[data_at + 4 * p..data_at + 4 * p + 4]);
        for m in masks {
            rgba.push(((v & m) >> m.trailing_zeros()) as u8);
        }
    }
    (width as u32, (-height) as u32, rgba)
}

#[test]
fn empty_value_has_no_bytes() {
    assert_eq!(node_data(&NodeValue::Empty), Vec::<u8>::new());
}

#[test]
fn integer_is_decimal_text() {
    assert_eq!(node_data(&NodeValue::Integer(100)), b"100".to_vec());
    assert_eq!(node_data(&NodeValue::Integer(0)), b"0".to_vec());
    assert_eq!(node_data(&NodeValue::Integer(7)), b"7".to_vec());
    assert_eq!(node_data(&NodeValue::Integer(10)), b"10".to_vec());
    assert_eq!(node_data(&NodeValue::Integer(-5)), b"-5".to_vec());
    assert_eq!(node_data(&NodeValue::Integer(-1234567890)), b"-1234567890".to_vec());
}

#[test]
fn integer_extremes_match_std() {
    assert_eq!(node_data(&NodeValue::Integer(i64::MAX)), i64::MAX.to_string().into_bytes());
    assert_eq!(node_data(&NodeValue::Integer(i64::MIN)), i64::MIN.to_string().into_bytes());
    assert_eq!(node_data(&NodeValue::Integer(i64::MIN)), b"-9223372036854775808".to_vec());
}

#[test]
fn push_decimal_appends() {
    let mut out = b"x=".to_vec();
    push_decimal(&mut out, -42);
    assert_eq!(out, b"x=-42".to_vec());
    push_digits(&mut out, u64::MAX);
    assert_eq!(out, b"x=-4218446744073709551615".to_vec());
}

#[test]
fn decimal_agrees_with_std_on_many_values() {
    let mut v: i64 = 1;
    for step in 0..200 {
        let mut out = Vec::new();
        push_decimal(&mut out, v);
        assert_eq!(out, v.to_string().into_bytes());
        v = v.wrapping_mul(-7).wrapping_add(step);
    }
}

#[test]
fn float_is_its_text() {
    assert_eq!(node_data(&NodeValue::Float(1.5f64.to_string())), b"1.5".to_vec());
    assert_eq!(node_data(&NodeValue::Float((-0.25f64).to_string())), b"-0.25".to_vec());
}

#[test]
fn string_is_its_encoded_bytes() {
    assert_eq!(node_data(&NodeValue::String("base".to_string())), b"base".to_vec());
    assert_eq!(node_data(&NodeValue::String(String::new())), Vec::<u8>::new());
    let s = "h\u{e9}llo \u{4e16}\u{754c}";
    assert_eq!(node_data(&NodeValue::String(s.to_string())), s.as_bytes().to_vec());
}

#[test]
fn vector_is_a_pair_in_parentheses() {
    assert_eq!(node_data(&NodeValue::Vector(3, -4)), b"(3, -4)".to_vec());
    assert_eq!(node_data(&NodeValue::Vector(0, 0)), b"(0, 0)".to_vec());
    assert_eq!(
        node_data(&NodeValue::Vector(i32::MIN, i32::MAX)),
        b"(-2147483648, 2147483647)".to_vec()
    );
}

#[test]
fn audio_is_served_unmodified() {
    let payload = vec![0u8, 1, 2, 254, 255, 0];
    assert_eq!(node_data(&NodeValue::Audio(payload.clone())), payload);
    assert_eq!(node_data(&NodeValue::Audio(Vec::new())), Vec::<u8>::new());
}

#[test]
fn bitmap_file_has_exact_bytes() {
    let file = encode_bitmap(&red_2x2());
    let mut want: Vec<u8> = Vec::new();
    want.extend_from_slice(&[0x42, 0x4D]);
    want.extend_from_slice(&[0x8A, 0, 0, 0]);
    want.extend_from_slice(&[0, 0, 0, 0]);
    want.extend_from_slice(&[0x7A, 0, 0, 0]);
    want.extend_from_slice(&[0x6C, 0, 0, 0]);
    want.extend_from_slice(&[2, 0, 0, 0]);
    want.extend_from_slice(&[0xFE, 0xFF, 0xFF, 0xFF]);
    want.extend_from_slice(&[1, 0]);
    want.extend_from_slice(&[32, 0]);
    want.extend_from_slice(&[3, 0, 0, 0]);
    want.extend_from_slice(&[16, 0, 0, 0]);
    want.extend_from_slice(&[0x13, 0x0B, 0, 0]);
    want.extend_from_slice(&[0x13, 0x0B, 0, 0]);
    want.extend_from_slice(&[0; 8]);
    want.extend_from_slice(&[0xFF, 0, 0, 0]);
    want.extend_from_slice(&[0, 0xFF, 0, 0]);
    want.extend_from_slice(&[0, 0, 0xFF, 0]);
    want.extend_from_slice(&[0, 0, 0, 0xFF]);
    want.extend_from_slice(&[0x20, 0x6E, 0x69, 0x57]);
    want.extend_from_slice(&[0; 48]);
    for _ in 0..4 {
        want.extend_from_slice(&[255, 0, 0, 255]);
    }
    assert_eq!(file.len(), 138);
    assert_eq!(file, want);
    assert_eq!(node_data(&NodeValue::Bitmap(red_2x2())), want);
}

#[test]
fn bitmap_round_trips() {
    let mut pixels = Vec::new();
    for i in 0..(3 * 5 * 4) {
        pixels.push((i * 7 % 251) as u8);
    }
    let b = Bitmap::new(3, 5, pixels.clone()).unwrap();
    let file = encode_bitmap(&b);
    assert_eq!(file.len(), 122 + pixels.len());
    assert_eq!(&file[122..], &pixels[..]);
    let (w, h, rgba) = decode(&file);
    assert_eq!((w, h), (3, 5));
    assert_eq!(rgba, pixels);
}

#[test]
fn header_masks_name_the_bytes_in_order() {
    let file = encode_bitmap(&red_2x2());
    assert_eq!(u32_le(&file[54..58]), 0x0000_00FF);
    assert_eq!(u32_le(&file[58..62]), 0x0000_FF00);
    assert_eq!(u32_le(&file[62..66]), 0x00FF_0000);
    assert_eq!(u32_le(&file[66..70]), 0xFF00_0000);
}

#[test]
fn swapping_red_and_blue() {
    assert_eq!(swap_red_blue(&vec![1, 2, 3, 4]), vec![3, 2, 1, 4]);
    assert_eq!(swap_red_blue(&vec![0, 0, 255, 255, 10, 20, 30, 40]), vec![255, 0, 0, 255, 30, 20, 10, 40]);
    assert_eq!(swap_red_blue(&Vec::new()), Vec::<u8>::new());
    // Bytes behind the last whole pixel stay.
    assert_eq!(swap_red_blue(&vec![1, 2, 3, 4, 5, 6, 7]), vec![3, 2, 1, 4, 5, 6, 7]);
    assert_eq!(swap_red_blue(&vec![1, 2, 3]), vec![1, 2, 3]);
    let buf: Vec<u8> = (0..64).collect();
    assert_eq!(swap_red_blue(&swap_red_blue(&buf)), buf);
}

#[test]
fn red_bitmap_decodes_to_red() {
    let (w, h, rgba) = decode(&encode_bitmap(&red_2x2()));
    assert_eq!((w, h), (2, 2));
    assert_eq!(rgba, [255u8, 0, 0, 255].repeat(4));
}

#[test]
fn wide_bitmap_keeps_its_width() {
    let b = Bitmap::new(300, 1, vec![9u8; 1200]).unwrap();
    let file = encode_bitmap(&b);
    assert_eq!(&file[18..22], &[0x2C, 0x01, 0, 0]);
    assert_eq!(&file[22..26], &[0xFF, 0xFF, 0xFF, 0xFF]);
    assert_eq!(&file[2..6], &1322u32.to_le_bytes());
    assert_eq!(&file[34..38], &1200u32.to_le_bytes());
}

#[test]
fn empty_bitmap_is_only_a_header() {
    let b = Bitmap::new(0, 7, Vec::new()).unwrap();
    let file = encode_bitmap(&b);
    assert_eq!(file.len(), 122);
    assert_eq!(&file[22..26], &(-7i32).to_le_bytes());
}

#[test]
fn bitmap_needs_four_bytes_per_pixel() {
    assert!(Bitmap::new(2, 2, vec![0; 15]).is_none());
    assert!(Bitmap::new(2, 2, vec![0; 17]).is_none());
    assert!(Bitmap::new(0, 0, vec![0; 1]).is_none());
    assert!(Bitmap::new(2, 2, vec![0; 16]).is_some());
    assert!(Bitmap::new(0, 0, Vec::new()).is_some());
}

#[test]
fn value_kinds() {
    assert_eq!(NodeValue::Empty.kind(), ValueKind::Empty);
    assert_eq!(NodeValue::Integer(1).kind(), ValueKind::Integer);
    assert_eq!(NodeValue::Float("1".to_string()).kind(), ValueKind::Float);
    assert_eq!(NodeValue::String("s".to_string()).kind(), ValueKind::String);
    assert_eq!(NodeValue::Vector(1, 2).kind(), ValueKind::Vector);
    assert_eq!(NodeValue::Bitmap(red_2x2()).kind(), ValueKind::Bitmap);
    assert_eq!(NodeValue::Audio(vec![1]).kind(), ValueKind::Audio);
}

#[test]
fn archive_builder_and_accessors() {
    let mut a = Archive::new("root", NodeValue::Empty);
    assert_eq!(a.root(), 0);
    assert_eq!(a.name(0), "root");
    assert!(!a.has_children(0));
    let x = a.add_child(0, "x", NodeValue::Integer(1)).unwrap();
    let y = a.add_child(0, "y", NodeValue::Integer(2)).unwrap();
    let z = a.add_child(x, "y", NodeValue::Integer(3)).unwrap();
    assert_eq!((x, y, z), (1, 2, 3));
    assert_eq!(a.children(0), &vec![1, 2]);
    assert_eq!(a.children(1), &vec![3]);
    assert!(a.has_children(0));
    assert!(a.has_children(1));
    assert!(!a.has_children(2));
    assert_eq!(a.get(0, "y"), Some(2));
    assert_eq!(a.get(1, "y"), Some(3));
    assert_eq!(a.get(0, "z"), None);
    assert_eq!(a.get(2, "y"), None);
    assert_eq!(a.value(3), &NodeValue::Integer(3));
    assert_eq!(a.name(3), "y");
    assert_eq!(a.add_child(9, "nowhere", NodeValue::Empty), None);
    assert_eq!(a.children(0), &vec![1, 2]);
}
