//! IUPAC ambiguity masks: packing ASCII letters to 4-bit masks, two per
//! byte, and unpacking them back to canonical uppercase letters.

use vstd::prelude::*;

verus! {

use crate::CodeConverter;
use crate::CodeConverterInPlace;

/// Mask of an uppercase (or already-folded) byte. Every byte that is not a
/// recognized IUPAC letter maps to `N` (all four bases possible).
pub open spec fn mask_of_upper(u: u8) -> u8 {
    if u == 0x41 {  // A
        1
    } else if u == 0x43 {  // C
        2
    } else if u == 0x47 {  // G
        4
    } else if u == 0x54 || u == 0x55 {  // T, U
        8
    } else if u == 0x4D {  // M = A|C
        3
    } else if u == 0x52 {  // R = A|G
        5
    } else if u == 0x53 {  // S = C|G
        6
    } else if u == 0x56 {  // V = A|C|G
        7
    } else if u == 0x57 {  // W = A|T
        9
    } else if u == 0x59 {  // Y = C|T
        10
    } else if u == 0x48 {  // H = A|C|T
        11
    } else if u == 0x4B {  // K = G|T
        12
    } else if u == 0x44 {  // D = A|G|T
        13
    } else if u == 0x42 {  // B = C|G|T
        14
    } else {  // N and everything unrecognized
        15
    }
}

/// Mask of an arbitrary byte: lowercase letters map like their uppercase
/// forms.
pub open spec fn mask_of(b: u8) -> u8 {
    mask_of_upper(crate::to_upper(b))
}

/// Canonical uppercase letter of a 4-bit mask. The zero mask, which no byte
/// packs to, reads back as `N`.
pub open spec fn char_of_mask(m: u8) -> u8 {
    if m == 1 {
        0x41  // A
    } else if m == 2 {
        0x43  // C
    } else if m == 3 {
        0x4D  // M
    } else if m == 4 {
        0x47  // G
    } else if m == 5 {
        0x52  // R
    } else if m == 6 {
        0x53  // S
    } else if m == 7 {
        0x56  // V
    } else if m == 8 {
        0x54  // T
    } else if m == 9 {
        0x57  // W
    } else if m == 10 {
        0x59  // Y
    } else if m == 11 {
        0x48  // H
    } else if m == 12 {
        0x4B  // K
    } else if m == 13 {
        0x44  // D
    } else if m == 14 {
        0x42  // B
    } else {
        0x4E  // N
    }
}

/// Number of bytes a buffer of `n` masks packs into.
pub open spec fn packed_len(n: nat) -> nat {
    (n + 1) / 2
}

/// Packing a sequence of masks: byte `i` holds mask `2*i` in its low nibble
/// and mask `2*i + 1` in its high nibble; a trailing lone mask stands alone
/// in the final byte, its high nibble zero whenever the mask fits a nibble.
pub open spec fn pack_masks(m: Seq<u8>) -> Seq<u8> {
    Seq::new(
        packed_len(m.len()),
        |i: int|
            if 2 * i + 1 < m.len() {
                m[2 * i] | (m[2 * i + 1] << 4)
            } else {
                m[2 * i]
            },
    )
}

/// The masks of a whole buffer under a 256-entry table.
pub open spec fn table_masks(table: Seq<u8>, s: Seq<u8>) -> Seq<u8> {
    Seq::new(s.len(), |i: int| table[s[i] as int])
}

/// The masks of a whole buffer under the standard IUPAC mapping.
pub open spec fn iupac_masks(s: Seq<u8>) -> Seq<u8> {
    Seq::new(s.len(), |i: int| mask_of(s[i]))
}

/// Number of bases a packed buffer unpacks to: two per byte, minus one when
/// the final byte's high nibble is zero (a lone trailing base).
pub open spec fn unpacked_len(p: Seq<u8>) -> nat {
    if p.len() == 0 {
        0
    } else if p.last() < 16 {
        (2 * p.len() - 1) as nat
    } else {
        2 * p.len()
    }
}

/// Unpacking: each nibble, low before high, becomes the canonical letter of
/// its mask.
pub open spec fn unpack_masks(p: Seq<u8>) -> Seq<u8> {
    Seq::new(
        unpacked_len(p),
        |i: int|
            if i % 2 == 0 {
                char_of_mask((p[i / 2] % 16) as u8)
            } else {
                char_of_mask((p[i / 2] / 16) as u8)
            },
    )
}

/// Masks are one-based: even an unrecognized byte packs to `N`, never to
/// the zero mask, and every mask fits a nibble.
pub proof fn lemma_mask_range(b: u8)
    ensures
        1 <= mask_of(b) < 16,
{
}

/// Unpacking is canonical: the canonical letter of a mask carries that very
/// mask, so a second pack loses nothing further.
pub proof fn lemma_mask_char_roundtrip(m: u8)
    requires
        1 <= m < 16,
    ensures
        mask_of(char_of_mask(m)) == m,
{
}

/// Splitting a packed byte recovers both masks: the low nibble holds the
/// even base, the high nibble the odd one.
pub proof fn lemma_nibble_split(lo: u8, hi: u8)
    requires
        lo < 16,
        hi < 16,
    ensures
        (lo | (hi << 4)) % 16 == lo,
        (lo | (hi << 4)) / 16 == hi,
        lo | (hi << 4) < 16 <==> hi == 0,
{
    assert(lo < 16 && hi < 16 ==> ((lo | (hi << 4)) % 16 == lo && (lo | (hi << 4)) / 16 == hi && (
    (lo | (hi << 4)) < 16 <==> hi == 0))) by (bit_vector);
}

/// One byte of the standard char-to-mask table, computed by branching.
fn iupac_mask_byte(b: u8) -> (r: u8)
    ensures
        r == mask_of(b),
{
    let up = if 0x61 <= b && b <= 0x7A {
        b - 0x20
    } else {
        b
    };
    match up {
        0x41 => 1,
        0x43 => 2,
        0x47 => 4,
        0x54 => 8,
        0x55 => 8,
        0x4D => 3,
        0x52 => 5,
        0x53 => 6,
        0x56 => 7,
        0x57 => 9,
        0x59 => 10,
        0x48 => 11,
        0x4B => 12,
        0x44 => 13,
        0x42 => 14,
        _ => 15,
    }
}

/// A 256-entry table expanded from a 32-letter alphabet: the windows at `A`
/// and at `a` hold the alphabet, everything else holds `N`.
pub open spec fn alphabet_entry(t32: Seq<u8>, i: int) -> u8 {
    if 0x41 <= i <= 0x60 {
        t32[i - 0x41]
    } else if 0x61 <= i <= 0x80 {
        t32[i - 0x61]
    } else {
        15
    }
}

/// What an out-of-place packer leaves in `out`: the packed masks of the
/// input under its table, then the untouched tail of the old contents.
pub open spec fn pack_out_spec(table: Seq<u8>, input: Seq<u8>, old_out: Seq<u8>) -> Seq<u8> {
    Seq::new(
        old_out.len(),
        |i: int|
            if i < packed_len(input.len()) {
                pack_masks(table_masks(table, input))[i]
            } else {
                old_out[i]
            },
    )
}

/// Scalar packer: a 256-entry table maps each byte to its mask, and
/// consecutive pairs of masks combine into single output bytes.
pub struct LUTPacker {
    pub lut: Vec<u8>,
}

impl LUTPacker {
    /// A packer over an arbitrary 256-entry byte-to-mask table.
    pub fn new(lut: [u8; 256]) -> (r: Self)
        ensures
            r.wf(),
            r.lut@ == lut@,
    {
        let mut v: Vec<u8> = Vec::new();
        let mut i: usize = 0;
        while i < 256
            invariant
                i <= 256,
                v@.len() == i,
                forall|j: int| 0 <= j < i ==> v@[j] == lut@[j],
            decreases 256 - i,
        {
            v.push(lut[i]);
            i = i + 1;
        }
        proof {
            assert(v@ =~= lut@);
        }
        LUTPacker { lut: v }
    }

    /// A packer over a 32-letter alphabet: the table maps `A` plus an offset
    /// and `a` plus the same offset to the alphabet's mask there, and every
    /// other byte to `N`.
    pub fn new_alphabet(lut: [u8; 32]) -> (r: Self)
        ensures
            r.wf(),
            forall|i: int| 0 <= i < 256 ==> r.lut@[i] == alphabet_entry(lut@, i),
    {
        let mut v: Vec<u8> = Vec::new();
        let mut i: usize = 0;
        while i < 256
            invariant
                i <= 256,
                v@.len() == i,
                forall|j: int| 0 <= j < i ==> v@[j] == alphabet_entry(lut@, j),
            decreases 256 - i,
        {
            let entry = if 0x41 <= i && i <= 0x60 {
                lut[i - 0x41]
            } else if 0x61 <= i && i <= 0x80 {
                lut[i - 0x61]
            } else {
                15
            };
            v.push(entry);
            i = i + 1;
        }
        LUTPacker { lut: v }
    }
}

impl Default for LUTPacker {
    /// The standard packer: its table is the IUPAC char-to-mask mapping.
    fn default() -> (r: Self)
        ensures
            r.wf(),
            forall|b: int| 0 <= b < 256 ==> r.lut@[b] == mask_of(b as u8),
    {
        let mut v: Vec<u8> = Vec::new();
        let mut i: usize = 0;
        while i < 256
            invariant
                i <= 256,
                v@.len() == i,
                forall|j: int| 0 <= j < i ==> v@[j] == mask_of(j as u8),
            decreases 256 - i,
        {
            #[verifier::truncate]
            let entry = iupac_mask_byte(i as u8);
            v.push(entry);
            i = i + 1;
        }
        LUTPacker { lut: v }
    }
}

impl CodeConverter for LUTPacker {
    open spec fn wf(&self) -> bool {
        self.lut@.len() == 256
    }

    open spec fn min_out_len(&self, input: Seq<u8>) -> nat {
        packed_len(input.len())
    }

    open spec fn out_spec(&self, input: Seq<u8>, old_out: Seq<u8>) -> Seq<u8> {
        pack_out_spec(self.lut@, input, old_out)
    }

    fn convert(&self, code: &[u8], out: &mut Vec<u8>) {
        let n = code.len();
        let pairs = n / 2;
        let mut i: usize = 0;
        while i < pairs
            invariant
                self.wf(),
                i <= pairs,
                pairs == n / 2,
                n == code@.len(),
                out@.len() == old(out)@.len(),
                packed_len(n as nat) <= out@.len(),
                forall|j: int|
                    0 <= j < i ==> out@[j] == pack_masks(table_masks(self.lut@, code@))[j],
                forall|j: int| i <= j < out@.len() ==> out@[j] == old(out)@[j],
            decreases pairs - i,
        {
            let lo = self.lut[code[2 * i] as usize];
            let hi = self.lut[code[2 * i + 1] as usize];
            out.set(i, lo | (hi << 4));
            i = i + 1;
        }
        if n % 2 == 1 {
            let last = self.lut[code[n - 1] as usize];
            out.set(n / 2, last);
        }
        proof {
            assert(out@ =~= self.out_spec(code@, old(out)@));
        }
    }
}

/// The standard char-to-mask table as a sequence: entry `b` is the IUPAC
/// mask of byte `b`.
pub open spec fn iupac_table() -> Seq<u8> {
    Seq::new(256, |i: int| mask_of(i as u8))
}

/// Case folding by clearing the ASCII case bit, stated arithmetically. It
/// uppercases the letters, and also moves some non-letter bytes onto other
/// non-letter bytes, which is harmless: both land outside every alphabet
/// window.
pub open spec fn clear_case_bit(b: u8) -> u8 {
    if b % 64 >= 32 {
        (b - 32) as u8
    } else {
        b
    }
}

/// The mask a 32-letter alphabet window assigns to a byte: fold the case
/// bit, and when the folded byte falls inside the window at `A`, take the
/// alphabet's mask there; otherwise `N`.
pub open spec fn window_mask(t32: Seq<u8>, b: u8) -> u8 {
    let x = clear_case_bit(b);
    if 0x41 <= x < 0x61 {
        t32[x - 0x41]
    } else {
        15
    }
}

/// Over the standard alphabet window, the folded window lookup computes
/// exactly the IUPAC mask of every byte, including bytes past the last
/// letter and bytes with the high bit set.
pub proof fn lemma_window_matches_iupac(t32: Seq<u8>, b: u8)
    requires
        t32.len() == 32,
        forall|i: int| 0 <= i < 32 ==> t32[i] == mask_of_upper((0x41 + i) as u8),
    ensures
        window_mask(t32, b) == mask_of(b),
{
}

/// One byte of the window-based packers: clear the case bit, shift into the
/// window, and look the offset up when it is in range.
fn window_mask_byte(t32: &Vec<u8>, b: u8) -> (r: u8)
    requires
        t32@.len() == 32,
    ensures
        r == window_mask(t32@, b),
{
    let x = b & 0xDF;
    proof {
        assert(b & 0xDF == (if b % 64 >= 32 {
            (b - 32) as u8
        } else {
            b
        })) by (bit_vector);
    }
    let d = if x >= 0x41 {
        x - 0x41
    } else {
        x + 0xBF
    };
    if d < 32 {
        t32[d as usize]
    } else {
        15
    }
}

/// The standard 32-entry alphabet window: the masks of the letters from `A`
/// onward.
fn standard_window() -> (r: Vec<u8>)
    ensures
        r@.len() == 32,
        forall|i: int| 0 <= i < 32 ==> r@[i] == mask_of_upper((0x41 + i) as u8),
{
    let mut v: Vec<u8> = Vec::new();
    let mut i: usize = 0;
    while i < 32
        invariant
            i <= 32,
            v@.len() == i,
            forall|j: int| 0 <= j < i ==> v@[j] == mask_of_upper((0x41 + j) as u8),
        decreases 32 - i,
    {
        #[verifier::truncate]
        let entry = iupac_mask_byte((0x41 + i) as u8);
        v.push(entry);
        i = i + 1;
    }
    v
}

/// Packer mirroring the vectorized strategy: two 16-entry nibble sub-tables
/// cover the 32-letter window, a second comparison selects the upper half,
/// and pairs of looked-up masks interleave into packed bytes. Out-of-window
/// bytes map to `N`, as the scalar table does.
pub struct SSE41Packer {
    pub scalar: LUTPacker,
    pub lut: Vec<u8>,
}

impl Default for SSE41Packer {
    fn default() -> (r: Self)
        ensures
            r.wf(),
    {
        let scalar = LUTPacker::default();
        proof {
            assert(scalar.lut@ =~= iupac_table());
        }
        SSE41Packer { scalar, lut: standard_window() }
    }
}

impl CodeConverter for SSE41Packer {
    open spec fn wf(&self) -> bool {
        self.scalar.wf() && self.scalar.lut@ == iupac_table() && self.lut@.len() == 32 && forall|
            i: int,
        | 0 <= i < 32 ==> self.lut@[i] == mask_of_upper((0x41 + i) as u8)
    }

    open spec fn min_out_len(&self, input: Seq<u8>) -> nat {
        packed_len(input.len())
    }

    open spec fn out_spec(&self, input: Seq<u8>, old_out: Seq<u8>) -> Seq<u8> {
        pack_out_spec(iupac_table(), input, old_out)
    }

    fn convert(&self, code: &[u8], out: &mut Vec<u8>) {
        let n = code.len();
        let pairs = n / 2;
        let mut i: usize = 0;
        while i < pairs
            invariant
                self.wf(),
                i <= pairs,
                pairs == n / 2,
                n == code@.len(),
                out@.len() == old(out)@.len(),
                packed_len(n as nat) <= out@.len(),
                forall|j: int|
                    0 <= j < i ==> out@[j] == pack_masks(table_masks(iupac_table(), code@))[j],
                forall|j: int| i <= j < out@.len() ==> out@[j] == old(out)@[j],
            decreases pairs - i,
        {
            let lo = window_mask_byte(&self.lut, code[2 * i]);
            let hi = window_mask_byte(&self.lut, code[2 * i + 1]);
            proof {
                lemma_window_matches_iupac(self.lut@, code@[2 * i as int]);
                lemma_window_matches_iupac(self.lut@, code@[2 * i as int + 1]);
            }
            out.set(i, lo | (hi << 4));
            i = i + 1;
        }
        if n % 2 == 1 {
            let last = window_mask_byte(&self.lut, code[n - 1]);
            proof {
                lemma_window_matches_iupac(self.lut@, code@[n as int - 1]);
            }
            out.set(n / 2, last);
        }
        proof {
            assert(out@ =~= self.out_spec(code@, old(out)@));
        }
    }
}

/// Scalar in-place packer: packs a buffer backward, last pair first, into
/// its own trailing bytes. Processing strictly from the end keeps the write
/// cursor at or beyond the read cursor, so no input byte is overwritten
/// before it has been read.
pub struct LUTInPlacePacker {
    pub lut: Vec<u8>,
}

impl LUTInPlacePacker {
    /// An in-place packer over an arbitrary 256-entry byte-to-mask table.
    pub fn new(lut: [u8; 256]) -> (r: Self)
        ensures
            r.wf(),
            r.lut@ == lut@,
    {
        let mut v: Vec<u8> = Vec::new();
        let mut i: usize = 0;
        while i < 256
            invariant
                i <= 256,
                v@.len() == i,
                forall|j: int| 0 <= j < i ==> v@[j] == lut@[j],
            decreases 256 - i,
        {
            v.push(lut[i]);
            i = i + 1;
        }
        proof {
            assert(v@ =~= lut@);
        }
        LUTInPlacePacker { lut: v }
    }

    /// An in-place packer over a 32-letter alphabet, expanded to a full
    /// table as `LUTPacker::new_alphabet` expands it.
    pub fn new_alphabet(lut: [u8; 32]) -> (r: Self)
        ensures
            r.wf(),
            forall|i: int| 0 <= i < 256 ==> r.lut@[i] == alphabet_entry(lut@, i),
    {
        let mut v: Vec<u8> = Vec::new();
        let mut i: usize = 0;
        while i < 256
            invariant
                i <= 256,
                v@.len() == i,
                forall|j: int| 0 <= j < i ==> v@[j] == alphabet_entry(lut@, j),
            decreases 256 - i,
        {
            let entry = if 0x41 <= i && i <= 0x60 {
                lut[i - 0x41]
            } else if 0x61 <= i && i <= 0x80 {
                lut[i - 0x61]
            } else {
                15
            };
            v.push(entry);
            i = i + 1;
        }
        LUTInPlacePacker { lut: v }
    }
}

impl Default for LUTInPlacePacker {
    /// The standard in-place packer: its table is the IUPAC char-to-mask
    /// mapping.
    fn default() -> (r: Self)
        ensures
            r.wf(),
            forall|b: int| 0 <= b < 256 ==> r.lut@[b] == mask_of(b as u8),
    {
        let mut v: Vec<u8> = Vec::new();
        let mut i: usize = 0;
        while i < 256
            invariant
                i <= 256,
                v@.len() == i,
                forall|j: int| 0 <= j < i ==> v@[j] == mask_of(j as u8),
            decreases 256 - i,
        {
            #[verifier::truncate]
            let entry = iupac_mask_byte(i as u8);
            v.push(entry);
            i = i + 1;
        }
        LUTInPlacePacker { lut: v }
    }
}

impl CodeConverterInPlace for LUTInPlacePacker {
    open spec fn wf(&self) -> bool {
        self.lut@.len() == 256
    }

    open spec fn byte_mask(&self, b: u8) -> u8 {
        self.lut@[b as int]
    }

    fn convert_in_place(&self, buf: &mut Vec<u8>) -> (start: usize) {
        let ghost masks = Seq::new(old(buf)@.len(), |i: int| self.byte_mask(old(buf)@[i]));
        let n = buf.len();
        let plen = n / 2 + n % 2;
        let start = n - plen;
        let mut input_pos = n;
        let mut output_pos = n;
        if n % 2 == 1 {
            let lastb = buf[n - 1];
            buf.set(n - 1, self.lut[lastb as usize]);
            input_pos = n - 1;
            output_pos = n - 1;
        }
        while input_pos >= 2
            invariant
                self.wf(),
                buf@.len() == n,
                n == old(buf)@.len(),
                plen == packed_len(n as nat),
                start == n - plen,
                input_pos % 2 == 0,
                input_pos <= n,
                output_pos == start + input_pos / 2,
                masks == Seq::new(old(buf)@.len(), |i: int| self.byte_mask(old(buf)@[i])),
                forall|j: int| 0 <= j < input_pos ==> buf@[j] == old(buf)@[j],
                forall|j: int|
                    output_pos <= j < n ==> buf@[j] == pack_masks(masks)[j - start],
            decreases input_pos,
        {
            input_pos = input_pos - 2;
            output_pos = output_pos - 1;
            let lsb = buf[input_pos];
            let msb = buf[input_pos + 1];
            let lo = self.lut[lsb as usize];
            let hi = self.lut[msb as usize];
            buf.set(output_pos, lo | (hi << 4));
        }
        proof {
            assert(buf@.skip(start as int) =~= pack_masks(masks));
        }
        start
    }
}

/// In-place packer mirroring the vectorized strategy: the same backward
/// two-cursor walk, with each byte's mask found through the 32-letter
/// window (case bit cleared, offset from `A`, out-of-window bytes to `N`).
pub struct SSE41InPlacePacker {
    pub lut: Vec<u8>,
}

impl SSE41InPlacePacker {
    /// An in-place packer over an arbitrary 32-letter alphabet window.
    pub fn new(lut: [u8; 32]) -> (r: Self)
        ensures
            r.wf(),
            r.lut@ == lut@,
    {
        let mut v: Vec<u8> = Vec::new();
        let mut i: usize = 0;
        while i < 32
            invariant
                i <= 32,
                v@.len() == i,
                forall|j: int| 0 <= j < i ==> v@[j] == lut@[j],
            decreases 32 - i,
        {
            v.push(lut[i]);
            i = i + 1;
        }
        proof {
            assert(v@ =~= lut@);
        }
        SSE41InPlacePacker { lut: v }
    }
}

impl Default for SSE41InPlacePacker {
    /// The standard window: the IUPAC masks of the letters from `A` onward,
    /// under which the window lookup equals the full IUPAC table.
    fn default() -> (r: Self)
        ensures
            r.wf(),
            forall|b: u8| #[trigger] r.byte_mask(b) == mask_of(b),
    {
        let r = SSE41InPlacePacker { lut: standard_window() };
        proof {
            assert forall|b: u8| r.byte_mask(b) == mask_of(b) by {
                lemma_window_matches_iupac(r.lut@, b);
            }
        }
        r
    }
}

impl CodeConverterInPlace for SSE41InPlacePacker {
    open spec fn wf(&self) -> bool {
        self.lut@.len() == 32
    }

    open spec fn byte_mask(&self, b: u8) -> u8 {
        window_mask(self.lut@, b)
    }

    fn convert_in_place(&self, buf: &mut Vec<u8>) -> (start: usize) {
        let ghost masks = Seq::new(old(buf)@.len(), |i: int| self.byte_mask(old(buf)@[i]));
        let n = buf.len();
        let plen = n / 2 + n % 2;
        let start = n - plen;
        let mut input_pos = n;
        let mut output_pos = n;
        if n % 2 == 1 {
            let lastb = buf[n - 1];
            let m = window_mask_byte(&self.lut, lastb);
            buf.set(n - 1, m);
            input_pos = n - 1;
            output_pos = n - 1;
        }
        while input_pos >= 2
            invariant
                self.wf(),
                buf@.len() == n,
                n == old(buf)@.len(),
                plen == packed_len(n as nat),
                start == n - plen,
                input_pos % 2 == 0,
                input_pos <= n,
                output_pos == start + input_pos / 2,
                masks == Seq::new(old(buf)@.len(), |i: int| self.byte_mask(old(buf)@[i])),
                forall|j: int| 0 <= j < input_pos ==> buf@[j] == old(buf)@[j],
                forall|j: int|
                    output_pos <= j < n ==> buf@[j] == pack_masks(masks)[j - start],
            decreases input_pos,
        {
            input_pos = input_pos - 2;
            output_pos = output_pos - 1;
            let lsb = buf[input_pos];
            let msb = buf[input_pos + 1];
            let lo = window_mask_byte(&self.lut, lsb);
            let hi = window_mask_byte(&self.lut, msb);
            buf.set(output_pos, lo | (hi << 4));
        }
        proof {
            assert(buf@.skip(start as int) =~= pack_masks(masks));
        }
        start
    }
}

/// What an unpacker leaves in `out`: the letters of the packed input's
/// nibbles, then the untouched tail of the old contents.
pub open spec fn unpack_out_spec(input: Seq<u8>, old_out: Seq<u8>) -> Seq<u8> {
    Seq::new(
        old_out.len(),
        |i: int|
            if i < unpacked_len(input) {
                unpack_masks(input)[i]
            } else {
                old_out[i]
            },
    )
}

/// One nibble of the mask-to-char table, computed by branching.
fn mask_char_byte(m: u8) -> (r: u8)
    requires
        m < 16,
    ensures
        r == char_of_mask(m),
{
    match m {
        1 => 0x41,
        2 => 0x43,
        3 => 0x4D,
        4 => 0x47,
        5 => 0x52,
        6 => 0x53,
        7 => 0x56,
        8 => 0x54,
        9 => 0x57,
        10 => 0x59,
        11 => 0x48,
        12 => 0x4B,
        13 => 0x44,
        14 => 0x42,
        _ => 0x4E,
    }
}

/// The 16-entry mask-to-char table.
fn mask_char_table() -> (r: Vec<u8>)
    ensures
        r@.len() == 16,
        forall|m: int| 0 <= m < 16 ==> r@[m] == char_of_mask(m as u8),
{
    let mut v: Vec<u8> = Vec::new();
    let mut m: usize = 0;
    while m < 16
        invariant
            m <= 16,
            v@.len() == m,
            forall|j: int| 0 <= j < m ==> v@[j] == char_of_mask(j as u8),
        decreases 16 - m,
    {
        #[verifier::truncate]
        let entry = mask_char_byte(m as u8);
        v.push(entry);
        m = m + 1;
    }
    v
}

/// Scalar unpacker: each packed byte expands to two letters through a
/// 16-entry mask-to-char table; a final byte whose high nibble is zero
/// holds a single trailing base and expands to one letter.
pub struct LUTUnpacker {
    pub lut: Vec<u8>,
}

impl Default for LUTUnpacker {
    fn default() -> (r: Self)
        ensures
            r.wf(),
    {
        LUTUnpacker { lut: mask_char_table() }
    }
}

/// The body shared by both unpackers: expand every nibble of `input` into
/// the front of `out` through the mask-to-char table.
fn unpack_with_table(lut: &Vec<u8>, input: &[u8], out: &mut Vec<u8>)
    requires
        lut@.len() == 16,
        forall|m: int| 0 <= m < 16 ==> lut@[m] == char_of_mask(m as u8),
        old(out)@.len() >= unpacked_len(input@),
    ensures
        final(out)@ == unpack_out_spec(input@, old(out)@),
        final(out)@.len() == old(out)@.len(),
{
    let n = input.len();
    if n == 0 {
        proof {
            assert(out@ =~= unpack_out_spec(input@, old(out)@));
        }
        return ;
    }
    let outlen = out.len();
    let last = input[n - 1];
    let mut full: usize = n;
    if last < 16 {
        assert(2 * (n - 1) < outlen);
        out.set(2 * (n - 1), lut[last as usize]);
        full = n - 1;
    }
    let mut i: usize = 0;
    while i < full
        invariant
            lut@.len() == 16,
            forall|m: int| 0 <= m < 16 ==> lut@[m] == char_of_mask(m as u8),
            n == input@.len(),
            n >= 1,
            full == n || (full == n - 1 && input@[n - 1] < 16),
            i <= full,
            outlen == out@.len(),
            out@.len() == old(out)@.len(),
            out@.len() >= unpacked_len(input@),
            unpacked_len(input@) == (if full == n {
                2 * n
            } else {
                2 * n - 1
            }),
            forall|j: int| 0 <= j < 2 * i ==> out@[j] == unpack_masks(input@)[j],
            full < n ==> out@[2 * (n - 1)] == unpack_masks(input@)[2 * (n - 1)],
            forall|j: int|
                2 * i <= j < out@.len() && !(full < n && j == 2 * (n - 1)) ==> out@[j] == old(
                    out,
                )@[j],
        decreases full - i,
    {
        let p = input[i];
        assert(p & 0xF == p % 16 && p % 16 < 16 && p >> 4 == p / 16 && p / 16 < 16)
            by (bit_vector);
        let lo = lut[(p & 0xF) as usize];
        let hi = lut[(p >> 4) as usize];
        assert(2 * i + 1 < outlen);
        out.set(2 * i, lo);
        out.set(2 * i + 1, hi);
        i = i + 1;
    }
    proof {
        assert(out@ =~= unpack_out_spec(input@, old(out)@));
    }
}

impl CodeConverter for LUTUnpacker {
    open spec fn wf(&self) -> bool {
        self.lut@.len() == 16 && forall|m: int| 0 <= m < 16 ==> self.lut@[m] == char_of_mask(
            m as u8,
        )
    }

    open spec fn min_out_len(&self, input: Seq<u8>) -> nat {
        unpacked_len(input)
    }

    open spec fn out_spec(&self, input: Seq<u8>, old_out: Seq<u8>) -> Seq<u8> {
        unpack_out_spec(input, old_out)
    }

    fn convert(&self, code: &[u8], out: &mut Vec<u8>) {
        unpack_with_table(&self.lut, code, out);
    }
}

/// Unpacker mirroring the vectorized strategy: eight packed bytes at a time
/// are deinterleaved into low and high nibbles and pushed through a single
/// 16-entry shuffle table. Per byte that is exactly the two scalar lookups,
/// so the strategy shares the scalar unpacker's contract.
pub struct SSSE3Unpacker {
    pub lut: Vec<u8>,
}

impl Default for SSSE3Unpacker {
    fn default() -> (r: Self)
        ensures
            r.wf(),
    {
        SSSE3Unpacker { lut: mask_char_table() }
    }
}

impl CodeConverter for SSSE3Unpacker {
    open spec fn wf(&self) -> bool {
        self.lut@.len() == 16 && forall|m: int| 0 <= m < 16 ==> self.lut@[m] == char_of_mask(
            m as u8,
        )
    }

    open spec fn min_out_len(&self, input: Seq<u8>) -> nat {
        unpacked_len(input)
    }

    open spec fn out_spec(&self, input: Seq<u8>, old_out: Seq<u8>) -> Seq<u8> {
        unpack_out_spec(input, old_out)
    }

    fn convert(&self, code: &[u8], out: &mut Vec<u8>) {
        unpack_with_table(&self.lut, code, out);
    }
}

/// The canonical spelling of a byte: the uppercase letter of its mask.
/// Lowercase letters, `U`, and unrecognized bytes all lose their original
/// spelling to this letter when packed.
pub open spec fn canonical_of(b: u8) -> u8 {
    char_of_mask(mask_of(b))
}

/// The canonical spelling of a whole buffer.
pub open spec fn canonical_seq(s: Seq<u8>) -> Seq<u8> {
    Seq::new(s.len(), |i: int| canonical_of(s[i]))
}

/// The mask only looks at a byte's uppercased form.
pub proof fn lemma_mask_case_insensitive(b: u8)
    ensures
        mask_of(b) == mask_of(crate::to_upper(b)),
{
}

/// Packing then unpacking restores every byte as its canonical spelling:
/// the round trip loses exactly the case and the non-canonical spellings,
/// nothing else, for buffers of every length.
pub proof fn lemma_pack_unpack_roundtrip(s: Seq<u8>)
    ensures
        unpack_masks(pack_masks(iupac_masks(s))) == canonical_seq(s),
{
    let ms = iupac_masks(s);
    let p = pack_masks(ms);
    let n = s.len() as int;
    if n == 0 {
        assert(unpack_masks(p) =~= canonical_seq(s));
    } else {
        if n % 2 == 1 {
            lemma_mask_range(s[n - 1]);
            assert(p.last() == ms[n - 1]);
        } else {
            lemma_mask_range(s[n - 2]);
            lemma_mask_range(s[n - 1]);
            lemma_nibble_split(ms[n - 2], ms[n - 1]);
            assert(p.last() == (ms[n - 2] | (ms[n - 1] << 4)));
        }
        assert(unpacked_len(p) == n);
        assert forall|i: int| 0 <= i < n implies unpack_masks(p)[i] == canonical_of(s[i]) by {
            lemma_mask_range(s[i]);
            if i % 2 == 0 {
                if i + 1 < n {
                    lemma_mask_range(s[i + 1]);
                    lemma_nibble_split(ms[i], ms[i + 1]);
                    assert(p[i / 2] == (ms[i] | (ms[i + 1] << 4)));
                } else {
                    assert(p[i / 2] == ms[i]);
                }
            } else {
                lemma_mask_range(s[i - 1]);
                lemma_nibble_split(ms[i - 1], ms[i]);
                assert(p[i / 2] == (ms[i - 1] | (ms[i] << 4)));
            }
        }
        assert(unpack_masks(p) =~= canonical_seq(s));
    }
}

/// Packing is idempotent after the first pack: the canonical spelling packs
/// to the very same bytes, so a pack-unpack-pack chain reproduces the first
/// pack exactly.
pub proof fn lemma_repack(s: Seq<u8>)
    ensures
        pack_masks(iupac_masks(unpack_masks(pack_masks(iupac_masks(s))))) == pack_masks(
            iupac_masks(s),
        ),
{
    lemma_pack_unpack_roundtrip(s);
    assert forall|i: int| 0 <= i < s.len() implies mask_of(canonical_of(s[i])) == mask_of(
        s[i],
    ) by {
        lemma_mask_range(s[i]);
        lemma_mask_char_roundtrip(mask_of(s[i]));
    }
    assert(iupac_masks(canonical_seq(s)) =~= iupac_masks(s));
}

/// In-place and out-of-place packing agree: any packer whose byte map is
/// the standard IUPAC mask — the trailing sub-slice an in-place packer
/// leaves, or the prefix an out-of-place packer writes — produces the same
/// packed bytes for the same buffer.
pub proof fn lemma_in_place_matches_out_of_place(f: spec_fn(u8) -> u8, s: Seq<u8>)
    requires
        forall|b: u8| f(b) == mask_of(b),
    ensures
        pack_masks(Seq::new(s.len(), |i: int| f(s[i]))) == pack_masks(iupac_masks(s)),
{
    assert(Seq::new(s.len(), |i: int| f(s[i])) =~= iupac_masks(s));
}

/// The shape of a packed buffer: exactly one byte for every two bases, and
/// the final byte's high nibble is empty exactly when the base count is
/// odd — a real base's mask is never zero.
pub proof fn lemma_packed_shape(s: Seq<u8>)
    ensures
        pack_masks(iupac_masks(s)).len() == packed_len(s.len()),
        s.len() % 2 == 1 ==> pack_masks(iupac_masks(s)).last() < 16,
        s.len() > 0 && s.len() % 2 == 0 ==> pack_masks(iupac_masks(s)).last() >= 16,
{
    let ms = iupac_masks(s);
    let p = pack_masks(ms);
    let n = s.len() as int;
    if n > 0 {
        if n % 2 == 1 {
            lemma_mask_range(s[n - 1]);
            assert(p.last() == ms[n - 1]);
        } else {
            lemma_mask_range(s[n - 2]);
            lemma_mask_range(s[n - 1]);
            lemma_nibble_split(ms[n - 2], ms[n - 1]);
            assert(p.last() == (ms[n - 2] | (ms[n - 1] << 4)));
        }
    }
}

} // verus!
