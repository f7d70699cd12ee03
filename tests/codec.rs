use messaging::{decode_variant, encode_variant, Decode, Encode, Error, Reader};

fn encoded<T: Encode>(value: &T) -> Vec<u8> {
    let mut out = Vec::new();
    let n = value.encode(&mut out);
    assert_eq!(n, out.len());
    out
}

fn round_trip<T: Encode + Decode>(value: &T) -> (T, usize) {
    let bytes = encoded(value);
    let total = bytes.len();
    let mut reader = Reader::new(bytes);
    let back = T::decode(&mut reader).unwrap();
    assert_eq!(reader.remaining(), 0);
    (back, total)
}

#[test]
fn integers_are_big_endian() {
    assert_eq!(encoded(&0xabu8), vec![0xab]);
    assert_eq!(encoded(&0x1234u16), vec![0x12, 0x34]);
    assert_eq!(encoded(&0x0102_0304u32), vec![1, 2, 3, 4]);
    assert_eq!(encoded(&0x0102_0304_0506_0708u64), vec![1, 2, 3, 4, 5, 6, 7, 8]);
    let wide = encoded(&0x0102_0304_0506_0708_090a_0b0c_0d0e_0f10u128);
    assert_eq!(wide, (1u8..=16).collect::<Vec<u8>>());
}

#[test]
fn number() {
    for v in [0u8, 1, 0x7f, 0x80, u8::MAX] {
        assert_eq!(round_trip(&v), (v, 1));
    }
    for v in [0u16, 1, 0x1234, u16::MAX] {
        assert_eq!(round_trip(&v), (v, 2));
    }
    for v in [0u32, 1, 0xdead_beef, u32::MAX] {
        assert_eq!(round_trip(&v), (v, 4));
    }
    for v in [0u64, 1, 0x0123_4567_89ab_cdef, u64::MAX] {
        assert_eq!(round_trip(&v), (v, 8));
    }
    for v in [0u128, 1, u64::MAX as u128 + 1, u128::MAX] {
        assert_eq!(round_trip(&v), (v, 16));
    }
}

#[test]
fn string() {
    for s in ["", "hello", "naïve café", "日本語テキスト", "🦀 emoji"] {
        let s = s.to_string();
        let (back, n) = round_trip(&s);
        assert_eq!(back, s);
        assert_eq!(n, 8 + s.len());
    }
}

#[test]
fn string_layout() {
    assert_eq!(encoded(&"hi".to_string()), vec![0, 0, 0, 0, 0, 0, 0, 2, b'h', b'i']);
    assert_eq!(encoded(&String::new()), vec![0; 8]);
}

#[test]
fn vector() {
    let a: Vec<u8> = vec![1, 2, 3, 255];
    assert_eq!(round_trip(&a).0, a);
    let b: Vec<u16> = vec![0, 0xffff, 0x1234];
    assert_eq!(round_trip(&b).0, b);
    let c: Vec<u32> = vec![7; 10];
    assert_eq!(round_trip(&c).0, c);
    let d: Vec<u64> = vec![u64::MAX, 0];
    assert_eq!(round_trip(&d).0, d);
    let e: Vec<u128> = vec![u128::MAX, 1, 2];
    assert_eq!(round_trip(&e).0, e);
    let f: Vec<String> = vec!["a".to_string(), String::new(), "ünï".to_string()];
    assert_eq!(round_trip(&f).0, f);
    let g: Vec<Vec<u16>> = vec![vec![], vec![1, 2], vec![3]];
    assert_eq!(round_trip(&g).0, g);
}

#[test]
fn vector_layout() {
    let v: Vec<u16> = vec![0x0102, 0x0304];
    assert_eq!(encoded(&v), vec![0, 0, 0, 0, 0, 0, 0, 2, 1, 2, 3, 4]);
}

#[test]
fn empty_sequence_is_a_zero_header() {
    let v: Vec<u32> = Vec::new();
    let bytes = encoded(&v);
    assert_eq!(bytes, vec![0; 8]);
    let mut reader = Reader::new(bytes);
    assert_eq!(Vec::<u32>::decode(&mut reader).unwrap(), Vec::<u32>::new());
    assert_eq!(reader.remaining(), 0);
}

type Example = (u128, (String, (String, (u16, String))));

fn example(id: u128, name: &str, address: &str, age: u16, phone: &str) -> Example {
    (id, (name.to_string(), (address.to_string(), (age, phone.to_string()))))
}

#[test]
fn example_struct() {
    let cases = [
        example(0, "", "", 0, ""),
        example(42, "Ada", "12 Analytical Way", 36, "+44 20 0000"),
        example(u128::MAX, "Zoë Ñandú", "東京都", u16::MAX, ""),
    ];
    for ex in cases {
        let (back, n) = round_trip(&ex);
        assert_eq!(back, ex);
        let expected = 16 + (8 + ex.1 .0.len()) + (8 + ex.1 .1 .0.len()) + 2
            + (8 + ex.1 .1 .1 .1.len());
        assert_eq!(n, expected);
    }
}

#[test]
fn record_fields_in_declared_order() {
    let rec: (u8, u16) = (0xaa, 0xbbcc);
    assert_eq!(encoded(&rec), vec![0xaa, 0xbb, 0xcc]);
}

#[test]
fn truncated_streams_end_early() {
    assert_eq!(u8::decode(&mut Reader::new(vec![])), Err(Error::UnexpectedEnd));
    assert_eq!(u16::decode(&mut Reader::new(vec![1])), Err(Error::UnexpectedEnd));
    assert_eq!(u32::decode(&mut Reader::new(vec![1, 2, 3])), Err(Error::UnexpectedEnd));
    assert_eq!(u64::decode(&mut Reader::new(vec![0; 7])), Err(Error::UnexpectedEnd));
    assert_eq!(u128::decode(&mut Reader::new(vec![0; 15])), Err(Error::UnexpectedEnd));
    assert_eq!(String::decode(&mut Reader::new(vec![0; 7])), Err(Error::UnexpectedEnd));
    let full = encoded(&"hello".to_string());
    for k in 0..full.len() {
        let cut = full[..k].to_vec();
        assert_eq!(String::decode(&mut Reader::new(cut)), Err(Error::UnexpectedEnd));
    }
    let v: Vec<u32> = vec![1, 2, 3];
    let full = encoded(&v);
    for k in 0..full.len() {
        let cut = full[..k].to_vec();
        assert_eq!(Vec::<u32>::decode(&mut Reader::new(cut)), Err(Error::UnexpectedEnd));
    }
    let ex = example(5, "n", "a", 9, "p");
    let full = encoded(&ex);
    for k in 0..full.len() {
        let cut = full[..k].to_vec();
        assert_eq!(Example::decode(&mut Reader::new(cut)), Err(Error::UnexpectedEnd));
    }
}

#[test]
fn huge_length_header_ends_early() {
    let mut bytes = vec![0xff; 8];
    bytes.extend_from_slice(b"abc");
    assert_eq!(String::decode(&mut Reader::new(bytes.clone())), Err(Error::UnexpectedEnd));
    assert_eq!(Vec::<u8>::decode(&mut Reader::new(bytes)), Err(Error::UnexpectedEnd));
}

#[test]
fn invalid_utf8_is_reported() {
    let mut bytes = vec![0, 0, 0, 0, 0, 0, 0, 2];
    bytes.extend_from_slice(&[0xc3, 0x28]);
    assert_eq!(String::decode(&mut Reader::new(bytes)), Err(Error::InvalidUtf8));
    let surrogate = vec![0, 0, 0, 0, 0, 0, 0, 3, 0xed, 0xa0, 0x80];
    assert_eq!(String::decode(&mut Reader::new(surrogate)), Err(Error::InvalidUtf8));
}

#[test]
fn first_error_stops_a_record() {
    let mut bytes = encoded(&7u8);
    bytes.extend_from_slice(&[0, 0, 0, 0, 0, 0, 0, 1, 0xff]);
    let r = <(u8, (String, u8))>::decode(&mut Reader::new(bytes));
    assert_eq!(r, Err(Error::InvalidUtf8));
}

#[derive(Debug, Clone, Copy, PartialEq)]
enum Colour {
    Red,
    Green,
    Blue,
}

const COLOURS: [Colour; 3] = [Colour::Red, Colour::Green, Colour::Blue];

#[test]
fn discriminants_are_positions() {
    for (i, c) in COLOURS.iter().enumerate() {
        let mut out = Vec::new();
        assert_eq!(encode_variant(*c as u32, &mut out), 4);
        assert_eq!(out, (i as u32).to_be_bytes().to_vec());
        let t = decode_variant(&mut Reader::new(out), COLOURS.len() as u32).unwrap();
        assert_eq!(COLOURS[t as usize], *c);
    }
}

#[test]
fn unknown_discriminant_is_named() {
    let r = decode_variant(&mut Reader::new(vec![0, 0, 0, 3]), 3);
    assert_eq!(r, Err(Error::KindInvalid(3)));
    let r = decode_variant(&mut Reader::new(vec![0xff, 0xff, 0xff, 0xff]), 3);
    assert_eq!(r, Err(Error::KindInvalid(u32::MAX)));
    let r = decode_variant(&mut Reader::new(vec![0, 0, 0]), 3);
    assert_eq!(r, Err(Error::UnexpectedEnd));
}

#[test]
fn reader_reads_in_order() {
    let mut out = Vec::new();
    0x0102u16.encode(&mut out);
    "xy".to_string().encode(&mut out);
    9u8.encode(&mut out);
    let mut reader = Reader::new(out);
    assert_eq!(u16::decode(&mut reader), Ok(0x0102));
    assert_eq!(String::decode(&mut reader), Ok("xy".to_string()));
    assert_eq!(u8::decode(&mut reader), Ok(9));
    assert_eq!(u8::decode(&mut reader), Err(Error::UnexpectedEnd));
}
