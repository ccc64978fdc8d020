use zapzap::qr::{codewords, data_module_count, encode, encode_with_mask, Qr, MAX_BYTES, SIZE, TOTAL_CODEWORDS};

fn fingerprint(qr: &Qr) -> u64 {
    let mut hash: u64 = 0xcbf29ce484222325;
    for y in 0..SIZE {
        let mut row: u64 = 0;
        for x in 0..SIZE {
            if qr.is_dark(x, y) {
                row |= 1 << x;
            }
        }
        for byte in row.to_le_bytes() {
            hash = (hash ^ byte as u64).wrapping_mul(0x100000001b3);
        }
    }
    hash
}

#[test]
fn data_modules_match_codeword_count() {
    assert_eq!(data_module_count(), TOTAL_CODEWORDS * 8);
}

/// Hashes computed with the `qrcode` Python package (version 10, level L, byte mode, fixed mask).
#[test]
fn matches_reference_encoder() {
    let payload: Vec<u8> = b"zapzap-qr-regression-".iter().cycle().take(239).copied().collect();
    assert_eq!(fingerprint(&encode_with_mask(&payload, 0).unwrap()), 0xe7c1d733a2097ea3);
    assert_eq!(fingerprint(&encode_with_mask(&payload, 5).unwrap()), 0xfaaf5d36bc760b89);
}

#[test]
fn rejects_payloads_that_do_not_fit() {
    assert!(encode(&[b'a'; MAX_BYTES]).is_some());
    assert!(encode(&[b'a'; MAX_BYTES + 1]).is_none());
}

#[test]
fn the_data_code_words_carry_the_header_the_payload_and_the_padding() {
    let words = codewords(b"hi").unwrap();
    assert_eq!(words.len(), TOTAL_CODEWORDS);
    // Block 0 holds 0100 | 0000 0000 0000 0010 | 0110 1000 | 0110 1001 | 0000, then 0xEC, 0x11...;
    // its words are every fourth one sent.
    assert_eq!(words[0], 0x40);
    assert_eq!(words[4], 0x00);
    assert_eq!(words[8], 0x26);
    assert_eq!(words[12], 0x86);
    assert_eq!(words[16], 0x90);
    assert_eq!(words[20], 0xEC);
    assert_eq!(words[24], 0x11);
    assert!(codewords(&[0u8; MAX_BYTES + 1]).is_none());
}

#[test]
fn a_payload_that_fits_gives_a_code_with_its_finder_corners() {
    let qr = encode(b"2@abc,def,ghi").unwrap();
    // The finder patterns' centres and outer rings are dark, their inner rings light.
    for (cx, cy) in [(3usize, 3usize), (53, 3), (3, 53)] {
        assert!(qr.is_dark(cx, cy));
        assert!(!qr.is_dark(cx + 2, cy));
        assert!(qr.is_dark(cx + 3, cy));
    }
}

#[test]
fn every_symbol_shows_the_function_patterns() {
    for mask in 0..8u8 {
        let q = encode_with_mask(b"zapzap", mask).expect("fits");
        // Finder centres and rings, the light border, the dark module and the timing patterns.
        assert!(q.is_dark(3, 3) && q.is_dark(53, 3) && q.is_dark(3, 53));
        assert!(!q.is_dark(1, 3) && !q.is_dark(51, 3) && !q.is_dark(3, 51));
        assert!(q.is_dark(0, 0) && !q.is_dark(7, 0) && !q.is_dark(0, 7));
        assert!(q.is_dark(8, 49));
        assert!(q.is_dark(10, 6) && !q.is_dark(11, 6) && q.is_dark(6, 10) && !q.is_dark(6, 11));
        // An alignment pattern: dark centre, light ring, dark edge.
        assert!(q.is_dark(28, 28) && !q.is_dark(29, 28) && q.is_dark(30, 28));
    }
}

#[test]
fn the_format_information_names_the_mask() {
    // Level L with mask 0 is 111011111000100; bit 0 goes at (8, 0).
    let q = encode_with_mask(b"zapzap", 0).expect("fits");
    let expected: u32 = 0b111011111000100;
    for i in 0..6 {
        assert_eq!(q.is_dark(8, i), (expected >> i) & 1 == 1);
    }
    assert_eq!(q.is_dark(8, 7), (expected >> 6) & 1 == 1);
    assert_eq!(q.is_dark(8, 8), (expected >> 7) & 1 == 1);
    assert_eq!(q.is_dark(7, 8), (expected >> 8) & 1 == 1);
    for i in 0..8 {
        assert_eq!(q.is_dark(56 - i, 8), (expected >> i) & 1 == 1);
    }
}
