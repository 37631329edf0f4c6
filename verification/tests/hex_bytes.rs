use transaction_pool::hex_bytes::Bytes;

#[test]
fn test_from_bytes() {
    let b = bytes::Bytes::from("0123456789abcdef");
    let wrapped_b = Bytes::from_slice(b.as_ref());
    let expected = Bytes::from_vec(b.to_vec());

    assert_eq!(wrapped_b, expected);
    assert_eq!(wrapped_b.len(), 16);
}

#[test]
fn test_from_slice() {
    let arr = [1, 35, 69, 103, 137, 171, 205, 239];
    let b = Bytes::from_slice(&arr);
    let expected = Bytes::from_vec(arr.to_vec());

    assert_eq!(b, expected);
}

#[test]
fn hex_formatting() {
    let b = Bytes::from_vec(vec![1, 35, 69, 103, 137, 171, 205, 239]);
    let expected = String::from("0x0123456789abcdef");
    assert_eq!(b.to_hex_string(), expected);
    assert_eq!(format!("0x{}", b.bytes_to_hex()), expected);
}

#[test]
fn test_from_str() {
    let b = Bytes::from_str("0x1213");
    assert!(b.is_ok());
    let b = b.unwrap();
    assert_eq!(b.to_vec(), hex::decode("1213").unwrap());

    let b = Bytes::from_str("1213");
    let b = b.unwrap();
    assert_eq!(b.to_vec(), hex::decode("1213").unwrap());
}

#[test]
fn test_debug_formatting() {
    let b = Bytes::from_vec(vec![1, 35, 69, 103, 137, 171, 205, 239]);
    assert_eq!(b.debug_string(), "Bytes(0x0123456789abcdef)");
}

#[test]
fn test_to_vec() {
    let vec = vec![1, 35, 69, 103, 137, 171, 205, 239];
    let b = Bytes::from_vec(vec.clone());

    assert_eq!(b.to_vec(), vec);
}

#[test]
fn test_vec_partialeq() {
    let vec = vec![1, 35, 69, 103, 137, 171, 205, 239];
    let b = Bytes::from_vec(vec.clone());
    assert!(b.eq_vec(&vec));

    let wrong_vec = vec![1, 3, 52, 137];
    assert!(!b.eq_vec(&wrong_vec));
}

#[test]
fn test_slice_partialeq() {
    let vec = vec![1, 35, 69, 103, 137, 171, 205, 239];
    let b = Bytes::from_vec(vec.clone());
    assert!(b.eq_slice(&vec[..]));

    let wrong_vec = [1, 3, 52, 137];
    assert!(!b.eq_slice(&wrong_vec[..]));
    let same_length = [1, 35, 69, 103, 137, 171, 205, 238];
    assert!(!b.eq_slice(&same_length[..]));
}

#[test]
fn test_bytes_partialeq() {
    let b = bytes::Bytes::from("0123456789abcdef");
    let wrapped_b = Bytes::from_slice(b.as_ref());
    assert!(wrapped_b.eq_slice(b.as_ref()));

    let wrong_b = bytes::Bytes::from("0123absd");
    assert_ne!(wrong_b, b);
    assert!(!wrapped_b.eq_slice(wrong_b.as_ref()));
}

#[test]
fn arbitrary() {
    let mut seed: u32 = 7;
    for len in 0..80usize {
        let mut data = Vec::new();
        for _ in 0..len {
            seed = seed.wrapping_mul(1_103_515_245).wrapping_add(12_345);
            data.push((seed >> 16) as u8);
        }
        let bytes = Bytes::from_vec(data.clone());
        let mut buf = vec![];
        let written = bytes.clone().to_compact(&mut buf);
        assert_eq!(written, len);

        let (decoded, remaining_buf) = Bytes::from_compact(&buf, buf.len());

        assert!(bytes == decoded);
        assert!(remaining_buf.is_empty());
    }
}

#[test]
fn compact_appends_and_reads_a_prefix() {
    let mut buf = vec![9u8, 9];
    let n = Bytes::from_vec(vec![1, 2, 3]).to_compact(&mut buf);
    assert_eq!(n, 3);
    assert_eq!(buf, vec![9, 9, 1, 2, 3]);
    let (head, rest) = Bytes::from_compact(&buf, 2);
    assert_eq!(head.to_vec(), vec![9, 9]);
    assert_eq!(rest, &[1u8, 2, 3][..]);
}

#[test]
fn from_str_takes_both_cases_and_an_empty_text() {
    assert_eq!(Bytes::from_str("0xAbCdEf09").unwrap().to_vec(), vec![0xab, 0xcd, 0xef, 0x09]);
    assert_eq!(Bytes::from_str("").unwrap().to_vec(), Vec::<u8>::new());
    assert_eq!(Bytes::from_str("0x").unwrap().to_vec(), Vec::<u8>::new());
    assert!(Bytes::from_str("0x").unwrap().is_empty());
    assert_eq!(Bytes::from_str("00ff").unwrap().to_vec(), vec![0, 255]);
}

#[test]
fn from_str_fails_on_odd_length_and_on_other_characters() {
    let odd = Bytes::from_str("0x123").unwrap_err();
    assert_eq!(odd.message(), "Failed to parse bytes: Invalid hex: Odd number of digits");
    let bad = Bytes::from_str("12g4").unwrap_err();
    assert!(bad.message().starts_with("Failed to parse bytes: Invalid hex: "));
    assert!(Bytes::from_str("0X1213").is_err());
    assert!(Bytes::from_str("x1").is_err());
    assert!(Bytes::from_str("0x0x12").is_err());
    assert!(Bytes::from_str("1 ").is_err());
    assert!(Bytes::from_str("\u{e9}1").is_err());
}

#[test]
fn hex_of_every_byte_reads_back() {
    let all: Vec<u8> = (0..=255u8).collect();
    let b = Bytes::from_vec(all.clone());
    let text = b.bytes_to_hex();
    assert_eq!(text.len(), 512);
    assert!(text.starts_with("000102030405060708090a0b0c0d0e0f10"));
    assert!(text.ends_with("fdfeff"));
    assert_eq!(Bytes::from_str(&text).unwrap().to_vec(), all);
    assert_eq!(Bytes::from_str(&b.to_hex_string()).unwrap(), b);
}

#[test]
fn default_is_empty_and_clone_is_equal() {
    let empty = Bytes::default();
    assert!(empty.is_empty());
    assert_eq!(empty.to_hex_string(), "0x");
    let b = Bytes::from_vec(vec![1, 2, 3]);
    let c = b.clone();
    assert_eq!(b, c);
    assert_eq!(c.to_vec(), vec![1, 2, 3]);
}
