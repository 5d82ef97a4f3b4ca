use nucleotide_converter::custom_alphabet::{
    LUTInPlacePacker, LUTPacker, LUTUnpacker, SSE41InPlacePacker, SSE41Packer, SSSE3Unpacker,
};
use nucleotide_converter::{CodeConverter, CodeConverterInPlace};

#[test]
fn test_pack_sequence_even() {
    const SEQ: [u8; 12] = *b"NNACGTATAGAC";

    let mut buf = SEQ.to_vec();

    let off = SSE41InPlacePacker::default().convert_in_place(&mut buf);
    let packed = &buf[off..];
    assert_eq!(packed, [0xFF, 0x21, 0x84, 0x81, 0x41, 0x21]);

    let mut unpacked = vec![0u8; SEQ.len()];
    SSSE3Unpacker::default().convert(packed, &mut unpacked);
    assert_eq!(unpacked, SEQ);
}

#[test]
fn test_pack_sequence_even_long() {
    const SEQ: [u8; 36] = *b"NNACGTATAGACNNACGTATAGACNNACGTATAGAC";

    let mut buf = SEQ.to_vec();

    let mut out_of_place_out = vec![0u8; 18];
    SSE41Packer::default().convert(&SEQ, &mut out_of_place_out);
    assert_eq!(
        out_of_place_out,
        [
            0xFF, 0x21, 0x84, 0x81, 0x41, 0x21, 0xFF, 0x21, 0x84, 0x81, 0x41, 0x21, 0xFF, 0x21,
            0x84, 0x81, 0x41, 0x21,
        ]
    );

    let off = SSE41InPlacePacker::default().convert_in_place(&mut buf);
    let packed = &buf[off..];
    assert_eq!(
        packed,
        [
            0xFF, 0x21, 0x84, 0x81, 0x41, 0x21, 0xFF, 0x21, 0x84, 0x81, 0x41, 0x21, 0xFF, 0x21,
            0x84, 0x81, 0x41, 0x21,
        ],
        "packed: {:02x?}",
        packed,
    );

    let mut unpacked = vec![0u8; SEQ.len()];
    SSSE3Unpacker::default().convert(packed, &mut unpacked);
    assert_eq!(unpacked, SEQ);
}

#[test]
fn test_pack_sequence_any_byte() {
    let table = LUTPacker::default();
    for val in 0..=u8::MAX {
        let mut buf = vec![val; 64];
        let expect = if val.is_ascii_alphabetic() {
            table.lut[val as usize]
        } else {
            0xF
        };

        let off = SSE41InPlacePacker::default().convert_in_place(&mut buf);
        let packed = &buf[off..];

        assert_eq!(
            &[expect | expect << 4; 32],
            packed,
            "unexpected output for {:02x}",
            val
        );
    }
}

#[test]
fn test_pack_sequence_odd() {
    const SEQ: [u8; 13] = *b"NNACGTATAGACG";
    let mut buf = SEQ.to_vec();
    let off = SSE41InPlacePacker::default().convert_in_place(&mut buf);
    let packed = &buf[off..];
    assert_eq!(packed, [0xFF, 0x21, 0x84, 0x81, 0x41, 0x21, 0x04]);

    let mut unpacked = vec![0u8; SEQ.len()];
    SSSE3Unpacker::default().convert(packed, &mut unpacked);
    assert_eq!(unpacked, SEQ);
}

#[test]
fn test_pack_sequence_odd_long() {
    const SEQ: [u8; 39] = *b"NNACGTATAGACGNNACGTATAGACGNNACGTATAGACG";
    let mut buf = SEQ.to_vec();

    let mut out_of_place_out = vec![0u8; SEQ.len() / 2 + 1];
    SSE41Packer::default().convert(&SEQ, &mut out_of_place_out);

    let off = SSE41InPlacePacker::default().convert_in_place(&mut buf);
    let packed = &buf[off..];

    assert_eq!(out_of_place_out, packed);

    let mut unpacked = vec![0u8; SEQ.len()];
    SSSE3Unpacker::default().convert(packed, &mut unpacked);
    assert_eq!(unpacked, SEQ);
}

/// The IUPAC mask of a byte, spelled out for checking the packers against.
fn expected_mask(b: u8) -> u8 {
    let up = b.to_ascii_uppercase();
    match up {
        b'A' => 0x1,
        b'C' => 0x2,
        b'G' => 0x4,
        b'T' | b'U' => 0x8,
        b'M' => 0x3,
        b'R' => 0x5,
        b'S' => 0x6,
        b'V' => 0x7,
        b'W' => 0x9,
        b'Y' => 0xA,
        b'H' => 0xB,
        b'K' => 0xC,
        b'D' => 0xD,
        b'B' => 0xE,
        _ => 0xF,
    }
}

fn pack_reference(seq: &[u8]) -> Vec<u8> {
    let mut out = Vec::new();
    for pair in seq.chunks(2) {
        if pair.len() == 2 {
            out.push(expected_mask(pair[0]) | (expected_mask(pair[1]) << 4));
        } else {
            out.push(expected_mask(pair[0]));
        }
    }
    out
}

#[test]
fn packers_agree_with_reference_masks() {
    let mut seq: Vec<u8> = Vec::new();
    for b in 0..=u8::MAX {
        seq.push(b);
    }
    for len in [0, 1, 2, 3, 15, 16, 17, 31, 32, 33, 255, 256] {
        let input = &seq[..len];
        let expect = pack_reference(input);

        let mut lut_out = vec![0u8; (len + 1) / 2];
        LUTPacker::default().convert(input, &mut lut_out);
        assert_eq!(lut_out, expect, "scalar packer, length {}", len);

        let mut sse_out = vec![0u8; (len + 1) / 2];
        SSE41Packer::default().convert(input, &mut sse_out);
        assert_eq!(sse_out, expect, "window packer, length {}", len);
    }
}

#[test]
fn in_place_matches_out_of_place() {
    let mut seq: Vec<u8> = Vec::new();
    for b in 0..=u8::MAX {
        seq.push(b);
        seq.push(b'a' + (b % 26));
    }
    for len in [0, 1, 2, 7, 16, 17, 64, 65, 511, 512] {
        let input = &seq[..len];
        let mut out_of_place = vec![0u8; (len + 1) / 2];
        LUTPacker::default().convert(input, &mut out_of_place);

        let mut buf1 = input.to_vec();
        let off1 = LUTInPlacePacker::default().convert_in_place(&mut buf1);
        assert_eq!(&buf1[off1..], out_of_place, "scalar in-place, length {}", len);
        assert_eq!(off1, len - (len + 1) / 2);

        let mut buf2 = input.to_vec();
        let off2 = SSE41InPlacePacker::default().convert_in_place(&mut buf2);
        assert_eq!(&buf2[off2..], out_of_place, "window in-place, length {}", len);
        assert_eq!(off2, len - (len + 1) / 2);
    }
}

#[test]
fn pack_unpack_round_trip_is_canonical() {
    let mut seq: Vec<u8> = Vec::new();
    for b in 0..=u8::MAX {
        seq.push(b);
    }
    for len in [1, 2, 3, 16, 17, 255, 256] {
        let input = &seq[..len];
        let mut packed = vec![0u8; (len + 1) / 2];
        LUTPacker::default().convert(input, &mut packed);

        let mut unpacked = vec![0u8; len];
        LUTUnpacker::default().convert(&packed, &mut unpacked);

        let canonical: Vec<u8> = input
            .iter()
            .map(|&b| match expected_mask(b) {
                0x1 => b'A',
                0x2 => b'C',
                0x3 => b'M',
                0x4 => b'G',
                0x5 => b'R',
                0x6 => b'S',
                0x7 => b'V',
                0x8 => b'T',
                0x9 => b'W',
                0xA => b'Y',
                0xB => b'H',
                0xC => b'K',
                0xD => b'D',
                0xE => b'B',
                _ => b'N',
            })
            .collect();
        assert_eq!(unpacked, canonical, "round trip, length {}", len);

        let mut repacked = vec![0u8; (len + 1) / 2];
        LUTPacker::default().convert(&unpacked, &mut repacked);
        assert_eq!(repacked, packed, "second pack, length {}", len);
    }
}

#[test]
fn odd_length_shape() {
    let seq = b"ACGTACGTACGTACGTA";
    for len in 0..seq.len() {
        let input = &seq[..len];
        let mut packed = vec![0u8; (len + 1) / 2];
        LUTPacker::default().convert(input, &mut packed);
        assert_eq!(packed.len(), (len + 1) / 2);
        if len > 0 {
            let high = packed[packed.len() - 1] >> 4;
            if len % 2 == 1 {
                assert_eq!(high, 0, "odd length {} must leave the high nibble empty", len);
            } else {
                assert_ne!(high, 0, "even length {} must fill the high nibble", len);
            }
        }
    }
}

#[test]
fn unpacker_handles_lone_trailing_base() {
    // 0x21 = A (low), C (high); 0x08 = lone T, high nibble zero.
    let packed = [0x21u8, 0x08];
    let mut unpacked = vec![0u8; 3];
    LUTUnpacker::default().convert(&packed, &mut unpacked);
    assert_eq!(unpacked, b"ACT");

    // With a full final byte the same prefix expands to four bases.
    let packed_full = [0x21u8, 0x18];
    let mut unpacked_full = vec![0u8; 4];
    LUTUnpacker::default().convert(&packed_full, &mut unpacked_full);
    assert_eq!(unpacked_full, b"ACTA");
}

#[test]
fn unpackers_agree() {
    let mut packed: Vec<u8> = Vec::new();
    for b in 0..=u8::MAX {
        packed.push(b | 0x10);
    }
    for len in [0, 1, 7, 8, 9, 256] {
        let input = &packed[..len];
        let mut a = vec![0u8; 2 * len];
        let mut b = vec![0u8; 2 * len];
        LUTUnpacker::default().convert(input, &mut a);
        SSSE3Unpacker::default().convert(input, &mut b);
        assert_eq!(a, b, "unpackers, length {}", len);
    }
}

#[test]
fn custom_table_packers() {
    let mut table = [0u8; 256];
    table[b'x' as usize] = 0x5;
    table[b'y' as usize] = 0xA;
    let packer = LUTPacker::new(table);
    let mut out = vec![0u8; 2];
    packer.convert(b"xyyx", &mut out);
    assert_eq!(out, [0xA5, 0x5A]);

    let in_place = LUTInPlacePacker::new(table);
    let mut buf = b"xyyx".to_vec();
    let off = in_place.convert_in_place(&mut buf);
    assert_eq!(&buf[off..], [0xA5, 0x5A]);
}

#[test]
fn custom_alphabet_packers() {
    // An alphabet that numbers the first few letters from one upward.
    let mut alphabet = [0u8; 32];
    for (i, slot) in alphabet.iter_mut().enumerate() {
        *slot = (i % 15) as u8 + 1;
    }
    let packer = LUTPacker::new_alphabet(alphabet);
    let in_place = LUTInPlacePacker::new_alphabet(alphabet);
    let window = SSE41InPlacePacker::new(alphabet);

    let seq = b"AbCdEfGh";
    let mut out = vec![0u8; 4];
    packer.convert(seq, &mut out);
    assert_eq!(out, [0x21, 0x43, 0x65, 0x87]);

    let mut buf1 = seq.to_vec();
    let off1 = in_place.convert_in_place(&mut buf1);
    assert_eq!(&buf1[off1..], out);

    let mut buf2 = seq.to_vec();
    let off2 = window.convert_in_place(&mut buf2);
    assert_eq!(&buf2[off2..], out);

    // A byte outside every window packs to N.
    let mut lone = vec![b'~'];
    let off3 = in_place.convert_in_place(&mut lone);
    assert_eq!(&lone[off3..], [0xF]);
}

#[test]
fn mask_case_insensitivity() {
    let packer = LUTPacker::default();
    for b in 0..=u8::MAX {
        if b.is_ascii_lowercase() {
            let mut lower = vec![0u8; 1];
            let mut upper = vec![0u8; 1];
            packer.convert(&[b], &mut lower);
            packer.convert(&[b.to_ascii_uppercase()], &mut upper);
            assert_eq!(lower, upper, "case must not matter for {:02x}", b);
        }
    }
}

#[test]
fn alphabet_window_boundary() {
    // The full-table expansion writes the alphabet's last entry at byte
    // 0x80 (`a` plus 31), while the folding window kernel clears the case
    // bit first and treats 0x80 as out of the window.
    let mut alphabet = [0u8; 32];
    alphabet[31] = 0x2;

    let full_table = LUTInPlacePacker::new_alphabet(alphabet);
    let mut buf = vec![0x80u8];
    let off = full_table.convert_in_place(&mut buf);
    assert_eq!(&buf[off..], [0x2]);

    let window = SSE41InPlacePacker::new(alphabet);
    let mut buf = vec![0x80u8];
    let off = window.convert_in_place(&mut buf);
    assert_eq!(&buf[off..], [0xF]);

    // The table keeps byte 0x60 (`A` plus 31) in the window; folding moves
    // it out, because clearing the case bit turns 0x60 into 0x40.
    let mut buf = vec![0x60u8];
    let off = full_table.convert_in_place(&mut buf);
    assert_eq!(&buf[off..], [0x2]);
    let mut buf = vec![0x60u8];
    let off = window.convert_in_place(&mut buf);
    assert_eq!(&buf[off..], [0xF]);

    // On the letters themselves the two agree.
    let mut buf = vec![b'Z', b'z'];
    let off = full_table.convert_in_place(&mut buf);
    let from_table = buf[off..].to_vec();
    let mut buf = vec![b'Z', b'z'];
    let off = window.convert_in_place(&mut buf);
    assert_eq!(&buf[off..], from_table);
}

#[test]
fn empty_buffers() {
    let mut out: Vec<u8> = Vec::new();
    LUTPacker::default().convert(&[], &mut out);
    assert!(out.is_empty());

    let mut buf: Vec<u8> = Vec::new();
    let off = LUTInPlacePacker::default().convert_in_place(&mut buf);
    assert_eq!(off, 0);
    let off = SSE41InPlacePacker::default().convert_in_place(&mut buf);
    assert_eq!(off, 0);

    LUTUnpacker::default().convert(&[], &mut out);
    assert!(out.is_empty());
}
