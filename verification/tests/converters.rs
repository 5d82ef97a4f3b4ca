use nucleotide_converter::{
    AVX2CodeConverter, AVX512VbmiCodeConverter, CodeConverter, LUTCodeConverter,
    NaiveCodeConverter, NaiveToLowerCodeConverter, SSE2CodeConverter, SSSE3CodeConverter,
};

/// The base code of a byte, spelled out for checking the kernels against.
fn expected_code(b: u8) -> u8 {
    match b {
        b'A' | b'a' => 0,
        b'T' | b't' => 1,
        b'C' | b'c' => 2,
        b'G' | b'g' => 3,
        _ => 0xFF,
    }
}

fn check_converter<T: CodeConverter>(name: &str, converter: &T) {
    let mut all: Vec<u8> = Vec::new();
    for b in 0..=u8::MAX {
        all.push(b);
    }
    // Lengths around every vector-chunk boundary of the original kernels.
    for len in [0, 1, 2, 15, 16, 17, 31, 32, 33, 63, 64, 65, 255, 256] {
        let input = &all[..len];
        let mut out = vec![0xABu8; len];
        converter.convert(input, &mut out);
        for (i, (&src, &got)) in input.iter().zip(out.iter()).enumerate() {
            assert_eq!(
                got,
                expected_code(src),
                "{}: wrong code for byte {:02x} at {} (length {})",
                name,
                src,
                i,
                len
            );
        }
    }
}

#[test]
fn naive_converter_all_bytes() {
    check_converter("naive", &NaiveCodeConverter::default());
}

#[test]
fn naive_to_lower_converter_all_bytes() {
    check_converter("uppercasing", &NaiveToLowerCodeConverter::default());
}

#[test]
fn lut_converter_all_bytes() {
    check_converter("table", &LUTCodeConverter::default());
}

#[test]
fn sse2_converter_all_bytes() {
    check_converter("blend", &SSE2CodeConverter::default());
}

#[test]
fn ssse3_converter_all_bytes() {
    check_converter("nibble", &SSSE3CodeConverter::default());
}

#[test]
fn avx2_converter_all_bytes() {
    check_converter("wide blend", &AVX2CodeConverter::default());
}

#[test]
fn avx512vbmi_converter_all_bytes() {
    check_converter("permute", &AVX512VbmiCodeConverter::default());
}

fn convert_with<T: CodeConverter>(converter: &T, input: &[u8]) -> Vec<u8> {
    let mut out = vec![0u8; input.len()];
    converter.convert(input, &mut out);
    out
}

#[test]
fn cross_kernel_equivalence() {
    let mut buf: Vec<u8> = Vec::new();
    for i in 0..1000usize {
        buf.push((i * 37 + 11) as u8);
    }
    for len in [0, 1, 16, 17, 33, 64, 100, 1000] {
        let input = &buf[..len];
        let reference = convert_with(&NaiveCodeConverter::default(), input);
        assert_eq!(convert_with(&NaiveToLowerCodeConverter::default(), input), reference);
        assert_eq!(convert_with(&LUTCodeConverter::default(), input), reference);
        assert_eq!(convert_with(&SSE2CodeConverter::default(), input), reference);
        assert_eq!(convert_with(&SSSE3CodeConverter::default(), input), reference);
        assert_eq!(convert_with(&AVX2CodeConverter::default(), input), reference);
        assert_eq!(convert_with(&AVX512VbmiCodeConverter::default(), input), reference);
    }
}

#[test]
fn base_code_scenarios() {
    let out = convert_with(&NaiveCodeConverter::default(), b"ATCGatcg");
    assert_eq!(out, [0, 1, 2, 3, 0, 1, 2, 3]);

    let out = convert_with(&NaiveCodeConverter::default(), b"N");
    assert_eq!(out, [0xFF]);
}

#[test]
fn case_insensitivity() {
    let converter = LUTCodeConverter::default();
    for b in 0..=u8::MAX {
        if b.is_ascii_lowercase() {
            let lower = convert_with(&converter, &[b]);
            let upper = convert_with(&converter, &[b.to_ascii_uppercase()]);
            assert_eq!(lower, upper, "case must not matter for {:02x}", b);
        }
    }
}

#[test]
fn sentinel_stability() {
    let converter = NaiveCodeConverter::default();
    for b in 0..=u8::MAX {
        if !b"ATCGatcg".contains(&b) {
            let out = convert_with(&converter, &[b]);
            assert_eq!(out, [0xFF], "byte {:02x} must map to the sentinel", b);
        }
    }
}

#[test]
fn output_tail_is_untouched() {
    let converter = NaiveCodeConverter::default();
    let mut out = vec![0x77u8; 10];
    converter.convert(b"ACGT", &mut out);
    assert_eq!(out, [0, 2, 3, 1, 0x77, 0x77, 0x77, 0x77, 0x77, 0x77]);
}
