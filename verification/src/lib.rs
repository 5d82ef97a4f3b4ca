//! Conversion between ASCII nucleotide text and compact binary encodings.
//!
//! Two encodings are provided. A *base code* maps each input byte to one
//! output byte holding `0`, `1`, `2` or `3` for `A`, `T`, `C`, `G`
//! (case-insensitive) and the sentinel `0xFF` for every other byte. An
//! *ambiguity mask* maps each byte to a 4-bit IUPAC bitmask, and pairs of
//! masks pack into single bytes (low nibble first); `custom_alphabet` holds
//! the packers and unpackers for that encoding.
//!
//! Several converter kernels compute the base code. Each mirrors the byte-wise
//! arithmetic of one conversion strategy (branching on the uppercased byte, a
//! 256-entry lookup table, a compare-and-blend chain, a pair of nibble table
//! lookups, a clamped 64-entry permutation), and each is proved to produce
//! exactly [`base_code_of`] for every input byte, so all kernels are
//! interchangeable.

use vstd::prelude::*;

pub mod custom_alphabet;

verus! {

/// Base-code mapping: `0`, `1`, `2`, `3` for `A`, `T`, `C`, `G` in either
/// case, and the sentinel `0xFF` for every other byte.
pub open spec fn base_code_of(b: u8) -> u8 {
    if b == 0x41 || b == 0x61 {
        0
    } else if b == 0x54 || b == 0x74 {
        1
    } else if b == 0x43 || b == 0x63 {
        2
    } else if b == 0x47 || b == 0x67 {
        3
    } else {
        0xFF
    }
}

/// ASCII uppercasing: `a`..`z` map to `A`..`Z`, everything else is unchanged.
pub open spec fn to_upper(b: u8) -> u8 {
    if 0x61 <= b && b <= 0x7A {
        (b - 0x20) as u8
    } else {
        b
    }
}

/// The base code only looks at a byte's uppercased form.
pub proof fn lemma_case_insensitive(b: u8)
    ensures
        base_code_of(b) == base_code_of(to_upper(b)),
{
}

/// Whether a byte spells one of the four bases, in either case.
pub open spec fn is_base_letter(b: u8) -> bool {
    b == 0x41 || b == 0x61 || b == 0x54 || b == 0x74 || b == 0x43 || b == 0x63 || b == 0x47
        || b == 0x67
}

/// Every byte that is not one of `A`, `T`, `C`, `G`, `a`, `t`, `c`, `g`
/// produces the sentinel, never a base code.
pub proof fn lemma_sentinel_stability(b: u8)
    requires
        !is_base_letter(b),
    ensures
        base_code_of(b) == 0xFF,
{
}

/// An out-of-place converter: reads `code` and writes one output byte per
/// input byte into the front of `out`, leaving the rest of `out` unchanged.
///
/// The implementations are the conversion kernels. Every code-point kernel
/// has the same `out_spec` (the base codes of the input), which makes their
/// outputs byte-identical on every buffer.
pub trait CodeConverter: Sized {
    /// Well-formedness of this converter instance (e.g. its table is full).
    spec fn wf(&self) -> bool;

    /// The least output length `convert` accepts for this input.
    spec fn min_out_len(&self, input: Seq<u8>) -> nat;

    /// The full contents of `out` after the call.
    spec fn out_spec(&self, input: Seq<u8>, old_out: Seq<u8>) -> Seq<u8>;

    fn convert(&self, code: &[u8], out: &mut Vec<u8>)
        requires
            self.wf(),
            old(out)@.len() >= self.min_out_len(code@),
        ensures
            final(out)@ == self.out_spec(code@, old(out)@),
            final(out)@.len() == old(out)@.len(),
    ;
}

/// An in-place packer: halves a buffer's effective length by packing it
/// backward, last pair first, so that no output byte is written before both
/// source bytes contributing to it have been read. The packed result is the
/// trailing sub-slice of the buffer, starting at the returned index; the
/// bytes in front of it are left in an unspecified, unused state.
pub trait CodeConverterInPlace: Sized {
    /// Well-formedness of this packer instance.
    spec fn wf(&self) -> bool;

    /// The mask this packer assigns to one input byte.
    spec fn byte_mask(&self, b: u8) -> u8;

    fn convert_in_place(&self, buf: &mut Vec<u8>) -> (start: usize)
        requires
            self.wf(),
        ensures
            final(buf)@.len() == old(buf)@.len(),
            start == old(buf)@.len() - custom_alphabet::packed_len(old(buf)@.len()),
            final(buf)@.skip(start as int) == custom_alphabet::pack_masks(
                Seq::new(old(buf)@.len(), |i: int| self.byte_mask(old(buf)@[i])),
            ),
    ;
}

/// What every code-point kernel leaves in `out`: the base code of each input
/// byte, then the untouched tail of the old contents.
pub open spec fn code_out_spec(input: Seq<u8>, old_out: Seq<u8>) -> Seq<u8> {
    Seq::new(
        old_out.len(),
        |i: int|
            if i < input.len() {
                base_code_of(input[i])
            } else {
                old_out[i]
            },
    )
}

/// Kernel that branches on the input byte after clearing the ASCII case bit.
pub struct NaiveCodeConverter {}

impl Default for NaiveCodeConverter {
    fn default() -> (r: Self)
        ensures
            r.wf(),
    {
        NaiveCodeConverter {  }
    }
}

/// One byte of the branching kernel: clear the case bit, then match.
fn naive_code_byte(b: u8) -> (r: u8)
    ensures
        r == base_code_of(b),
{
    let folded = b & 0xDF;
    proof {
        assert((b & 0xDF == 0x41 <==> b == 0x41 || b == 0x61) && (b & 0xDF == 0x54 <==> b == 0x54
            || b == 0x74) && (b & 0xDF == 0x43 <==> b == 0x43 || b == 0x63) && (b & 0xDF == 0x47
            <==> b == 0x47 || b == 0x67)) by (bit_vector);
    }
    match folded {
        0x41 => 0,
        0x54 => 1,
        0x43 => 2,
        0x47 => 3,
        _ => 0xFF,
    }
}

impl CodeConverter for NaiveCodeConverter {
    open spec fn wf(&self) -> bool {
        true
    }

    open spec fn min_out_len(&self, input: Seq<u8>) -> nat {
        input.len()
    }

    open spec fn out_spec(&self, input: Seq<u8>, old_out: Seq<u8>) -> Seq<u8> {
        code_out_spec(input, old_out)
    }

    fn convert(&self, code: &[u8], out: &mut Vec<u8>) {
        let n = code.len();
        let mut i: usize = 0;
        while i < n
            invariant
                i <= n,
                n == code@.len(),
                out@.len() == old(out)@.len(),
                n <= out@.len(),
                forall|j: int| 0 <= j < i ==> out@[j] == base_code_of(code@[j]),
                forall|j: int| i <= j < out@.len() ==> out@[j] == old(out)@[j],
            decreases n - i,
        {
            let v = naive_code_byte(code[i]);
            out.set(i, v);
            i = i + 1;
        }
        proof {
            assert(out@ =~= self.out_spec(code@, old(out)@));
        }
    }
}

/// Kernel that uppercases each byte by range test before matching, instead
/// of clearing the case bit. Both foldings give the same base code for every
/// byte, which `lemma_upper_fold_agrees` states.
pub struct NaiveToLowerCodeConverter {}

impl Default for NaiveToLowerCodeConverter {
    fn default() -> (r: Self)
        ensures
            r.wf(),
    {
        NaiveToLowerCodeConverter {  }
    }
}

/// What the range-test kernel computes for one byte: match on the ASCII
/// uppercased form.
pub open spec fn upper_code_of(b: u8) -> u8 {
    base_code_of(to_upper(b))
}

/// Folding by range test and folding by clearing the case bit agree on the
/// base code of every byte, including bytes that are no letters at all.
pub proof fn lemma_upper_fold_agrees(b: u8)
    ensures
        upper_code_of(b) == base_code_of(b),
{
}

/// One byte of the range-test kernel.
fn upper_code_byte(b: u8) -> (r: u8)
    ensures
        r == base_code_of(b),
{
    let up = if 0x61 <= b && b <= 0x7A {
        b - 0x20
    } else {
        b
    };
    match up {
        0x41 => 0,
        0x54 => 1,
        0x43 => 2,
        0x47 => 3,
        _ => 0xFF,
    }
}

impl CodeConverter for NaiveToLowerCodeConverter {
    open spec fn wf(&self) -> bool {
        true
    }

    open spec fn min_out_len(&self, input: Seq<u8>) -> nat {
        input.len()
    }

    open spec fn out_spec(&self, input: Seq<u8>, old_out: Seq<u8>) -> Seq<u8> {
        code_out_spec(input, old_out)
    }

    fn convert(&self, code: &[u8], out: &mut Vec<u8>) {
        let n = code.len();
        let mut i: usize = 0;
        while i < n
            invariant
                i <= n,
                n == code@.len(),
                out@.len() == old(out)@.len(),
                n <= out@.len(),
                forall|j: int| 0 <= j < i ==> out@[j] == base_code_of(code@[j]),
                forall|j: int| i <= j < out@.len() ==> out@[j] == old(out)@[j],
            decreases n - i,
        {
            let v = upper_code_byte(code[i]);
            out.set(i, v);
            i = i + 1;
        }
        proof {
            assert(out@ =~= self.out_spec(code@, old(out)@));
        }
    }
}

/// Kernel that indexes a 256-entry table directly with the raw byte, so case
/// folding costs no branch.
pub struct LUTCodeConverter {
    pub lut: Vec<u8>,
}

impl Default for LUTCodeConverter {
    /// Fills the table so that entry `b` holds the base code of byte `b`.
    fn default() -> (r: Self)
        ensures
            r.wf(),
    {
        let mut lut: Vec<u8> = Vec::new();
        let mut b: usize = 0;
        while b < 256
            invariant
                b <= 256,
                lut@.len() == b,
                forall|j: int| 0 <= j < b ==> lut@[j] == base_code_of(j as u8),
            decreases 256 - b,
        {
            #[verifier::truncate]
            let v = naive_code_byte(b as u8);
            lut.push(v);
            b = b + 1;
        }
        LUTCodeConverter { lut }
    }
}

impl CodeConverter for LUTCodeConverter {
    open spec fn wf(&self) -> bool {
        self.lut@.len() == 256 && forall|j: int| 0 <= j < 256 ==> self.lut@[j] == base_code_of(
            j as u8,
        )
    }

    open spec fn min_out_len(&self, input: Seq<u8>) -> nat {
        input.len()
    }

    open spec fn out_spec(&self, input: Seq<u8>, old_out: Seq<u8>) -> Seq<u8> {
        code_out_spec(input, old_out)
    }

    fn convert(&self, code: &[u8], out: &mut Vec<u8>) {
        let n = code.len();
        let mut i: usize = 0;
        while i < n
            invariant
                self.wf(),
                i <= n,
                n == code@.len(),
                out@.len() == old(out)@.len(),
                n <= out@.len(),
                forall|j: int| 0 <= j < i ==> out@[j] == base_code_of(code@[j]),
                forall|j: int| i <= j < out@.len() ==> out@[j] == old(out)@[j],
            decreases n - i,
        {
            let v = self.lut[code[i] as usize];
            out.set(i, v);
            i = i + 1;
        }
        proof {
            assert(out@ =~= self.out_spec(code@, old(out)@));
        }
    }
}

/// What the compare-and-blend strategy computes for one byte (lane): set the
/// ASCII case bit, compare against the four lowercase base letters, and
/// blend the matching code over the sentinel.
pub open spec fn blend_code_of(b: u8) -> u8 {
    let x = b | 0x20;
    if x == 0x61 {
        0
    } else if x == 0x74 {
        1
    } else if x == 0x63 {
        2
    } else if x == 0x67 {
        3
    } else {
        0xFF
    }
}

/// The compare-and-blend lane computation agrees with the base-code mapping
/// on every byte.
pub proof fn lemma_blend_matches_naive(b: u8)
    ensures
        blend_code_of(b) == base_code_of(b),
{
    assert((b | 0x20 == 0x61 <==> b == 0x41 || b == 0x61) && (b | 0x20 == 0x74 <==> b == 0x54 || b
        == 0x74) && (b | 0x20 == 0x63 <==> b == 0x43 || b == 0x63) && (b | 0x20 == 0x67 <==> b
        == 0x47 || b == 0x67)) by (bit_vector);
}

/// One byte of the compare-and-blend kernels.
fn blend_code_byte(b: u8) -> (r: u8)
    ensures
        r == base_code_of(b),
{
    proof {
        lemma_blend_matches_naive(b);
    }
    let x = b | 0x20;
    let mut r: u8 = if x == 0x61 {
        0
    } else {
        0xFF
    };
    if x == 0x74 {
        r = 1;
    }
    if x == 0x63 {
        r = 2;
    }
    if x == 0x67 {
        r = 3;
    }
    r
}

/// Kernel mirroring the 16-lane compare-and-blend strategy: equality tests
/// against the four lowercase letters select one of four constants.
pub struct SSE2CodeConverter {}

impl Default for SSE2CodeConverter {
    fn default() -> (r: Self)
        ensures
            r.wf(),
    {
        SSE2CodeConverter {  }
    }
}

impl CodeConverter for SSE2CodeConverter {
    open spec fn wf(&self) -> bool {
        true
    }

    open spec fn min_out_len(&self, input: Seq<u8>) -> nat {
        input.len()
    }

    open spec fn out_spec(&self, input: Seq<u8>, old_out: Seq<u8>) -> Seq<u8> {
        code_out_spec(input, old_out)
    }

    fn convert(&self, code: &[u8], out: &mut Vec<u8>) {
        let n = code.len();
        let mut i: usize = 0;
        while i < n
            invariant
                i <= n,
                n == code@.len(),
                out@.len() == old(out)@.len(),
                n <= out@.len(),
                forall|j: int| 0 <= j < i ==> out@[j] == base_code_of(code@[j]),
                forall|j: int| i <= j < out@.len() ==> out@[j] == old(out)@[j],
            decreases n - i,
        {
            let v = blend_code_byte(code[i]);
            out.set(i, v);
            i = i + 1;
        }
        proof {
            assert(out@ =~= self.out_spec(code@, old(out)@));
        }
    }
}

/// Kernel mirroring the 32-lane variant of the compare-and-blend strategy;
/// the lane computation is the same as the 16-lane kernel's, only the chunk
/// width differs, which a byte-level model collapses.
pub struct AVX2CodeConverter {}

impl Default for AVX2CodeConverter {
    fn default() -> (r: Self)
        ensures
            r.wf(),
    {
        AVX2CodeConverter {  }
    }
}

impl CodeConverter for AVX2CodeConverter {
    open spec fn wf(&self) -> bool {
        true
    }

    open spec fn min_out_len(&self, input: Seq<u8>) -> nat {
        input.len()
    }

    open spec fn out_spec(&self, input: Seq<u8>, old_out: Seq<u8>) -> Seq<u8> {
        code_out_spec(input, old_out)
    }

    fn convert(&self, code: &[u8], out: &mut Vec<u8>) {
        let n = code.len();
        let mut i: usize = 0;
        while i < n
            invariant
                i <= n,
                n == code@.len(),
                out@.len() == old(out)@.len(),
                n <= out@.len(),
                forall|j: int| 0 <= j < i ==> out@[j] == base_code_of(code@[j]),
                forall|j: int| i <= j < out@.len() ==> out@[j] == old(out)@[j],
            decreases n - i,
        {
            let v = blend_code_byte(code[i]);
            out.set(i, v);
            i = i + 1;
        }
        proof {
            assert(out@ =~= self.out_spec(code@, old(out)@));
        }
    }
}

/// Signed saturating subtraction of 64 from a byte, the range shift the
/// nibble-lookup strategy applies before its table lookups.
pub open spec fn sat_sub_64(b: u8) -> u8 {
    if b < 0x80 {
        if b >= 0x40 {
            (b - 0x40) as u8
        } else {
            (b + 0xC0) as u8
        }
    } else if b < 0xC0 {
        0x80
    } else {
        (b - 0x40) as u8
    }
}

/// Low-nibble identification table of the nibble-lookup strategy: the low
/// nibble each base letter (either case) shares, mapped to a one-based
/// identifier.
pub open spec fn nib_low_id(n: u8) -> u8 {
    if n == 1 {
        1
    } else if n == 4 {
        2
    } else if n == 3 {
        3
    } else if n == 7 {
        4
    } else {
        0
    }
}

/// High-half identification table of the nibble-lookup strategy, indexed by
/// bits one to four of the shifted byte.
pub open spec fn nib_high_id(n: u8) -> u8 {
    if n == 0 {
        1
    } else if n == 10 {
        2
    } else if n == 1 {
        3
    } else if n == 3 {
        4
    } else {
        0
    }
}

/// What the nibble-lookup strategy computes for one byte: shift the byte
/// down by 64 with signed saturation, look up both halves, and accept the
/// identifier only when the two lookups agree.
pub open spec fn nibble_code_of(b: u8) -> u8 {
    let c = sat_sub_64(b);
    let r0 = if c >= 0x80 {
        0
    } else {
        nib_low_id((c % 16) as u8)
    };
    let r1 = nib_high_id(((c / 2) % 16) as u8);
    if r0 == r1 && r0 != 0 {
        (r0 - 1) as u8
    } else {
        0xFF
    }
}

/// The nibble-lookup lane computation agrees with the base-code mapping on
/// every byte: the two half-lookups agree exactly on the eight base letters.
pub proof fn lemma_nibble_matches_naive(b: u8)
    ensures
        nibble_code_of(b) == base_code_of(b),
{
}

/// One byte of the nibble-lookup kernel, with the table lookups written as
/// branches on the nibble value.
fn nibble_code_byte(b: u8) -> (r: u8)
    ensures
        r == base_code_of(b),
{
    let c = if b < 0x80 {
        if b >= 0x40 {
            b - 0x40
        } else {
            b + 0xC0
        }
    } else if b < 0xC0 {
        0x80
    } else {
        b - 0x40
    };
    assert(c & 0xF == c % 16) by (bit_vector);
    assert((c >> 1) & 0xF == (c / 2) % 16) by (bit_vector);
    let lo = c & 0xF;
    let hi = (c >> 1) & 0xF;
    let r0: u8 = if c >= 0x80 {
        0
    } else if lo == 1 {
        1
    } else if lo == 4 {
        2
    } else if lo == 3 {
        3
    } else if lo == 7 {
        4
    } else {
        0
    };
    let r1: u8 = if hi == 0 {
        1
    } else if hi == 10 {
        2
    } else if hi == 1 {
        3
    } else if hi == 3 {
        4
    } else {
        0
    };
    proof {
        lemma_nibble_matches_naive(b);
    }
    if r0 == r1 && r0 != 0 {
        r0 - 1
    } else {
        0xFF
    }
}

/// Kernel mirroring the dual nibble-table strategy: each byte splits into
/// two 4-bit halves, each half indexes a 16-entry table, and the result
/// counts only when both lookups agree, which detects out-of-alphabet bytes
/// without a compare cascade.
pub struct SSSE3CodeConverter {}

impl Default for SSSE3CodeConverter {
    fn default() -> (r: Self)
        ensures
            r.wf(),
    {
        SSSE3CodeConverter {  }
    }
}

impl CodeConverter for SSSE3CodeConverter {
    open spec fn wf(&self) -> bool {
        true
    }

    open spec fn min_out_len(&self, input: Seq<u8>) -> nat {
        input.len()
    }

    open spec fn out_spec(&self, input: Seq<u8>, old_out: Seq<u8>) -> Seq<u8> {
        code_out_spec(input, old_out)
    }

    fn convert(&self, code: &[u8], out: &mut Vec<u8>) {
        let n = code.len();
        let mut i: usize = 0;
        while i < n
            invariant
                i <= n,
                n == code@.len(),
                out@.len() == old(out)@.len(),
                n <= out@.len(),
                forall|j: int| 0 <= j < i ==> out@[j] == base_code_of(code@[j]),
                forall|j: int| i <= j < out@.len() ==> out@[j] == old(out)@[j],
            decreases n - i,
        {
            let v = nibble_code_byte(code[i]);
            out.set(i, v);
            i = i + 1;
        }
        proof {
            assert(out@ =~= self.out_spec(code@, old(out)@));
        }
    }
}

/// The 64-entry permutation table of the permute strategy, indexed by the
/// byte's distance from `A` clamped into the table.
pub open spec fn permute_lut(i: u8) -> u8 {
    if i == 0 || i == 32 {
        0
    } else if i == 19 || i == 51 {
        1
    } else if i == 2 || i == 34 {
        2
    } else if i == 6 || i == 38 {
        3
    } else {
        0xFF
    }
}

/// What the permute strategy computes for one byte: subtract `A` with
/// wraparound, clamp into the 64-entry table by an unsigned minimum, and
/// permute.
pub open spec fn permute_code_of(b: u8) -> u8 {
    let d = if b >= 0x41 {
        (b - 0x41) as u8
    } else {
        (b + 0xBF) as u8
    };
    let clamped = if d > 57 {
        57
    } else {
        d
    };
    permute_lut(clamped)
}

/// The permute lane computation agrees with the base-code mapping on every
/// byte: bytes below `A` wrap far past the clamp bound, and the clamp slot
/// holds the sentinel.
pub proof fn lemma_permute_matches_naive(b: u8)
    ensures
        permute_code_of(b) == base_code_of(b),
{
}

/// One byte of the permute kernel, with the 64-entry table written as
/// branches on the clamped index.
fn permute_code_byte(b: u8) -> (r: u8)
    ensures
        r == base_code_of(b),
{
    let d = if b >= 0x41 {
        b - 0x41
    } else {
        b + 0xBF
    };
    let clamped = if d > 57 {
        57
    } else {
        d
    };
    proof {
        lemma_permute_matches_naive(b);
    }
    if clamped == 0 || clamped == 32 {
        0
    } else if clamped == 19 || clamped == 51 {
        1
    } else if clamped == 2 || clamped == 34 {
        2
    } else if clamped == 6 || clamped == 38 {
        3
    } else {
        0xFF
    }
}

/// Kernel mirroring the single-permutation strategy: one 64-entry permute
/// keyed by the byte's clamped distance from `A` resolves both cases of all
/// four letters at once.
pub struct AVX512VbmiCodeConverter {}

impl Default for AVX512VbmiCodeConverter {
    fn default() -> (r: Self)
        ensures
            r.wf(),
    {
        AVX512VbmiCodeConverter {  }
    }
}

impl CodeConverter for AVX512VbmiCodeConverter {
    open spec fn wf(&self) -> bool {
        true
    }

    open spec fn min_out_len(&self, input: Seq<u8>) -> nat {
        input.len()
    }

    open spec fn out_spec(&self, input: Seq<u8>, old_out: Seq<u8>) -> Seq<u8> {
        code_out_spec(input, old_out)
    }

    fn convert(&self, code: &[u8], out: &mut Vec<u8>) {
        let n = code.len();
        let mut i: usize = 0;
        while i < n
            invariant
                i <= n,
                n == code@.len(),
                out@.len() == old(out)@.len(),
                n <= out@.len(),
                forall|j: int| 0 <= j < i ==> out@[j] == base_code_of(code@[j]),
                forall|j: int| i <= j < out@.len() ==> out@[j] == old(out)@[j],
            decreases n - i,
        {
            let v = permute_code_byte(code[i]);
            out.set(i, v);
            i = i + 1;
        }
        proof {
            assert(out@ =~= self.out_spec(code@, old(out)@));
        }
    }
}

} // verus!
