//! QR Code encoder for the WhatsApp pairing payload and nothing else: version 10 (57x57), error
//! correction L, byte mode. The code words (data, padding, Reed-Solomon error correction and their
//! interleaving) are stated exactly; the matrix keeps its size and its function patterns apart from
//! the data.

use vstd::prelude::*;

verus! {

pub const SIZE: usize = 57;
/// Largest payload that fits version 10 at level L in byte mode.
pub const MAX_BYTES: usize = 271;

pub const DATA_CODEWORDS: usize = 274;
pub const TOTAL_CODEWORDS: usize = 346;
pub const EC_PER_BLOCK: usize = 18;
/// Modules of the matrix, row after row.
pub const MODULES: usize = 3249;
const FORMAT_LEVEL_L: u32 = 1;

/// The generator polynomial of the 18 error-correction code words of a block, highest power
/// first (its leading 1 left out), over GF(256) with the polynomial 0x11d.
pub const GENERATOR: [u8; 18] = [239, 251, 183, 113, 149, 175, 199, 215, 240, 220, 73, 82, 173, 75, 32, 67, 217, 146];

/// The four-bit pieces of the data bit stream: the byte-mode indicator, the 16-bit length, the
/// payload's bytes, and the terminator.
pub open spec fn nibble(payload: Seq<u8>, j: int) -> int {
    let n = payload.len() as int;
    if j == 0 { 4 }
    else if j == 1 { n / 4096 % 16 }
    else if j == 2 { n / 256 % 16 }
    else if j == 3 { n / 16 % 16 }
    else if j == 4 { n % 16 }
    else if 5 <= j < 5 + 2 * n { if (j - 5) % 2 == 0 { payload[(j - 5) / 2] as int / 16 } else { payload[(j - 5) / 2] as int % 16 } }
    else { 0 }
}

/// Data code word `k`: two pieces of the bit stream, then the pad bytes 0xEC and 0x11 in turn.
pub open spec fn data_byte(payload: Seq<u8>, k: int) -> u8 {
    let used = payload.len() + 3;
    if k < used { (nibble(payload, 2 * k) * 16 + nibble(payload, 2 * k + 1)) as u8 }
    else if (k - used) % 2 == 0 { 0xEC } else { 0x11 }
}

pub open spec fn data_of(payload: Seq<u8>) -> Seq<u8> {
    Seq::new(DATA_CODEWORDS as nat, |k: int| data_byte(payload, k))
}

/// Where data block `b` starts: two blocks of 68 code words, then two of 69.
pub open spec fn block_start(b: int) -> int {
    b * 68 + if b > 2 { b - 2 } else { 0 }
}

/// One step of GF(256) multiplication of `x` by the bits of `y`, highest first (shift, reduce by
/// 0x11d, add `x` where the bit is set): the value after `n` bits.
pub open spec fn gf_partial(x: u8, y: u8, n: nat) -> u32
    decreases n,
{
    if n == 0 {
        0
    } else {
        let z = gf_partial(x, y, (n - 1) as nat);
        let bit = (8 - n) as u32;
        let shifted = (z << 1u32) ^ (((z >> 7u32) * 0x11d) as u32);
        shifted ^ ((((y as u32) >> bit) & 1) * (x as u32)) as u32
    }
}

/// The product of `x` and `y` in GF(256).
pub open spec fn gf_mul(x: u8, y: u8) -> u8 {
    gf_partial(x, y, 8) as u8
}

/// The remainder after one more byte of the message went through the division by the generator.
pub open spec fn rs_step(rem: Seq<u8>, byte: u8) -> Seq<u8> {
    let factor = byte ^ rem[0];
    Seq::new(EC_PER_BLOCK as nat, |i: int| (if i < EC_PER_BLOCK - 1 { rem[i + 1] } else { 0u8 }) ^ gf_mul(GENERATOR@[i], factor))
}

/// The error-correction code words of `data`: the remainder of its polynomial times x^18 divided by
/// the generator.
pub open spec fn rs_remainder(data: Seq<u8>) -> Seq<u8>
    decreases data.len(),
{
    if data.len() == 0 {
        Seq::new(EC_PER_BLOCK as nat, |i: int| 0u8)
    } else {
        rs_step(rs_remainder(data.drop_last()), data.last())
    }
}

/// The error-correction code words of block `b`.
pub open spec fn ec_of(payload: Seq<u8>, b: int) -> Seq<u8> {
    rs_remainder(data_of(payload).subrange(block_start(b), block_start(b + 1)))
}

/// Code word `k` as sent: the data code words of the four blocks in turn (the two longer blocks give
/// the last two), then their error-correction code words in turn.
pub open spec fn codeword_at(payload: Seq<u8>, k: int) -> u8 {
    let data = data_of(payload);
    if k < 272 { data[block_start(k % 4) + k / 4] }
    else if k == 272 { data[block_start(2) + 68] }
    else if k == 273 { data[block_start(3) + 68] }
    else { ec_of(payload, (k - 274) % 4)[(k - 274) / 4] }
}

pub open spec fn codewords_of(payload: Seq<u8>) -> Seq<u8> {
    Seq::new(TOTAL_CODEWORDS as nat, |k: int| codeword_at(payload, k))
}

/// A pairing code: 57 rows of 57 modules, bit `x` of row `y` dark or light.
pub struct Qr {
    rows: [u64; SIZE],
}

impl Qr {
    /// Whether the module in column `x` of row `y` is dark.
    pub closed spec fn module(&self, x: int, y: int) -> bool {
        (self.rows@[y] >> (x as u64)) & 1 == 1
    }

    pub fn is_dark(&self, x: usize, y: usize) -> (dark: bool)
        requires
            x < 64,
            y < SIZE,
        ensures
            dark == self.module(x as int, y as int),
    {
        (self.rows[y] >> (x as u64)) & 1 == 1
    }
}

/// GF(256) multiplication is commutative, has 1 as its unit and 0 as its zero.
#[verifier::rlimit(100)]
pub proof fn lemma_gf_field(x: u8, y: u8)
    ensures
        gf_mul(x, y) == gf_mul(y, x),
        gf_mul(x, 1) == x,
        gf_mul(x, 0) == 0,
{
    assert(gf_mul(x, y) == gf_mul(y, x)) by (bit_vector);
    assert(gf_mul(x, 1) == x) by (bit_vector);
    assert(gf_mul(x, 0) == 0) by (bit_vector);
}

/// Multiplying by 2 after a product is multiplying the second factor by 2 first.
#[verifier::rlimit(100)]
proof fn lemma_gf_double(x: u8, y: u8)
    ensures
        gf_mul(x, gf_mul(y, 2)) == gf_mul(gf_mul(x, y), 2),
{
    assert(gf_mul(x, gf_mul(y, 2)) == gf_mul(gf_mul(x, y), 2)) by (bit_vector);
}

/// Multiplying by the next power of two is doubling the product by the one before.
#[verifier::rlimit(100)]
proof fn lemma_gf_next_power(a: u8, k: u8)
    requires
        k < 7,
    ensures
        gf_mul(a, 1u8 << ((k + 1) as u8)) == gf_mul(gf_mul(a, 1u8 << k), 2),
{
    assert(k < 7 ==> gf_mul(a, 1u8 << ((k + 1) as u8)) == gf_mul(gf_mul(a, 1u8 << k), 2)) by (bit_vector);
}

/// Associativity when the last factor is a power of two.
proof fn lemma_gf_associates_power(x: u8, y: u8, k: u8)
    requires
        k < 8,
    ensures
        gf_mul(x, gf_mul(y, 1u8 << k)) == gf_mul(gf_mul(x, y), 1u8 << k),
    decreases k,
{
    if k == 0 {
        assert(1u8 << 0u8 == 1) by (bit_vector);
        lemma_gf_field(y, 0);
        lemma_gf_field(gf_mul(x, y), 0);
    } else {
        let j = (k - 1) as u8;
        lemma_gf_associates_power(x, y, j);
        lemma_gf_next_power(y, j);
        lemma_gf_double(x, gf_mul(y, 1u8 << j));
        lemma_gf_next_power(gf_mul(x, y), j);
        assert((j + 1) as u8 == k);
    }
}

/// Associativity when the last factor is below `2^j`.
proof fn lemma_gf_associates_below(x: u8, y: u8, z: u8, j: u8)
    requires
        j <= 8,
        (z as u32) < (1u32 << (j as u32)),
    ensures
        gf_mul(x, gf_mul(y, z)) == gf_mul(gf_mul(x, y), z),
    decreases j,
{
    if j == 0 {
        assert((z as u32) < (1u32 << 0u32) ==> z == 0) by (bit_vector);
        lemma_gf_field(y, 0);
        lemma_gf_field(x, 0);
        lemma_gf_field(gf_mul(x, y), 0);
    } else {
        let i = (j - 1) as u8;
        let low = z & (((1u32 << (i as u32)) - 1) as u8);
        let high = z & (1u8 << i);
        assert(i < 8 && (z as u32) < (1u32 << ((i + 1) as u32)) ==> z == low ^ high && (low as u32) < (1u32 << (i as u32))
            && (high == 0 || high == (1u8 << i))) by (bit_vector)
            requires low == z & (((1u32 << (i as u32)) - 1) as u8), high == z & (1u8 << i);
        assert((i + 1) as u32 == j as u32);
        lemma_gf_associates_below(x, y, low, i);
        if high == 0 {
            lemma_gf_field(y, 0);
            lemma_gf_field(x, 0);
            lemma_gf_field(gf_mul(x, y), 0);
        } else {
            lemma_gf_associates_power(x, y, i);
        }
        lemma_gf_distributes(y, low, high);
        lemma_gf_distributes(x, gf_mul(y, low), gf_mul(y, high));
        lemma_gf_distributes(gf_mul(x, y), low, high);
    }
}

/// GF(256) multiplication is associative.
pub proof fn lemma_gf_associates(x: u8, y: u8, z: u8)
    ensures
        gf_mul(x, gf_mul(y, z)) == gf_mul(gf_mul(x, y), z),
{
    assert((z as u32) < (1u32 << 8u32)) by (bit_vector);
    lemma_gf_associates_below(x, y, z, 8);
}

/// GF(256) multiplication distributes over addition (XOR).
#[verifier::rlimit(100)]
pub proof fn lemma_gf_distributes(x: u8, y: u8, z: u8)
    ensures
        gf_mul(x, y ^ z) == gf_mul(x, y) ^ gf_mul(x, z),
{
    assert(gf_mul(x, y ^ z) == gf_mul(x, y) ^ gf_mul(x, z)) by (bit_vector);
}

fn gf_multiply(x: u8, y: u8) -> (product: u8)
    ensures
        product == gf_mul(x, y),
{
    let mut z: u32 = 0;
    let mut n: u32 = 0;
    while n < 8
        invariant
            0 <= n <= 8,
            z == gf_partial(x, y, n as nat),
            z < 256,
        decreases 8 - n,
    {
        let bit: u32 = 7 - n;
        assert(z < 256 ==> (z >> 7u32) <= 1) by (bit_vector);
        let shifted: u32 = (z << 1u32) ^ ((z >> 7u32) * 0x11d);
        assert(((((y as u32) >> bit) & 1) == 0 || (((y as u32) >> bit) & 1) == 1)) by (bit_vector);
        assert(z < 256 ==> ((z << 1u32) ^ (((z >> 7u32) * 0x11d) as u32)) < 256) by (bit_vector);
        let add: u32 = (((y as u32) >> bit) & 1) * (x as u32);
        assert(((((y as u32) >> bit) & 1) == 0 || (((y as u32) >> bit) & 1) == 1)) by (bit_vector);
        assert(shifted < 256 && add < 256 ==> (shifted ^ add) < 256) by (bit_vector);
        z = shifted ^ add;
        n = n + 1;
        assert(bit == (8 - n) as u32);
    }
    z as u8
}

fn ec_remainder(data: &[u8]) -> (rem: Vec<u8>)
    ensures
        rem@ == rs_remainder(data@),
{
    let mut rem: Vec<u8> = Vec::new();
    let mut i: usize = 0;
    while i < EC_PER_BLOCK
        invariant
            0 <= i <= EC_PER_BLOCK,
            rem@.len() == i,
            forall|j: int| 0 <= j < i ==> rem@[j] == 0,
        decreases EC_PER_BLOCK - i,
    {
        rem.push(0);
        i = i + 1;
    }
    assert(rem@ =~= rs_remainder(data@.take(0)));
    let mut k: usize = 0;
    while k < data.len()
        invariant
            0 <= k <= data@.len(),
            rem@ == rs_remainder(data@.take(k as int)),
            rem@.len() == EC_PER_BLOCK,
        decreases data@.len() - k,
    {
        let factor = data[k] ^ rem[0];
        let mut next: Vec<u8> = Vec::new();
        let mut i: usize = 0;
        while i < EC_PER_BLOCK
            invariant
                0 <= i <= EC_PER_BLOCK,
                rem@.len() == EC_PER_BLOCK,
                factor == data@[k as int] ^ rem@[0],
                next@.len() == i,
                forall|j: int| 0 <= j < i ==> next@[j] == rs_step(rem@, data@[k as int])[j],
            decreases EC_PER_BLOCK - i,
        {
            let carried: u8 = if i < EC_PER_BLOCK - 1 { rem[i + 1] } else { 0 };
            next.push(carried ^ gf_multiply(GENERATOR[i], factor));
            i = i + 1;
        }
        assert(data@.take(k + 1).drop_last() =~= data@.take(k as int));
        assert(next@ =~= rs_step(rem@, data@[k as int]));
        rem = next;
        k = k + 1;
    }
    assert(data@.take(data@.len() as int) =~= data@);
    rem
}

/// The data code words: the byte-mode header, the payload, the terminator and the padding.
fn data_codewords(payload: &[u8]) -> (data: Vec<u8>)
    requires
        payload@.len() <= MAX_BYTES,
    ensures
        data@ == data_of(payload@),
{
    let n = payload.len();
    let mut data: Vec<u8> = Vec::new();
    let mut k: usize = 0;
    while k < DATA_CODEWORDS
        invariant
            0 <= k <= DATA_CODEWORDS,
            n == payload@.len(),
            n <= MAX_BYTES,
            data@.len() == k,
            forall|j: int| 0 <= j < k ==> data@[j] == data_byte(payload@, j),
        decreases DATA_CODEWORDS - k,
    {
        let byte: u8 = if k < n + 3 {
            let high = nibble_at(payload, 2 * k);
            let low = nibble_at(payload, 2 * k + 1);
            (high * 16 + low) as u8
        } else if (k - (n + 3)) % 2 == 0 {
            0xEC
        } else {
            0x11
        };
        data.push(byte);
        k = k + 1;
    }
    assert(data@ =~= data_of(payload@));
    data
}

fn nibble_at(payload: &[u8], j: usize) -> (value: u32)
    requires
        payload@.len() <= MAX_BYTES,
        j < 600,
    ensures
        value == nibble(payload@, j as int),
        value < 16,
{
    let n = payload.len();
    if j == 0 { 4 }
    else if j == 1 { (n / 4096 % 16) as u32 }
    else if j == 2 { (n / 256 % 16) as u32 }
    else if j == 3 { (n / 16 % 16) as u32 }
    else if j == 4 { (n % 16) as u32 }
    else if j < 5 + 2 * n {
        let byte = payload[(j - 5) / 2] as u32;
        if (j - 5) % 2 == 0 { byte / 16 } else { byte % 16 }
    } else { 0 }
}

fn slice_bytes(s: &[u8], from: usize, to: usize) -> (part: Vec<u8>)
    requires
        from <= to <= s@.len(),
    ensures
        part@ == s@.subrange(from as int, to as int),
{
    let mut part: Vec<u8> = Vec::new();
    let mut i: usize = from;
    while i < to
        invariant
            from <= i <= to <= s@.len(),
            part@ == s@.subrange(from as int, i as int),
        decreases to - i,
    {
        part.push(s[i]);
        i = i + 1;
        assert(part@ =~= s@.subrange(from as int, i as int));
    }
    part
}

proof fn lemma_remainder_len(data: Seq<u8>)
    ensures
        rs_remainder(data).len() == EC_PER_BLOCK,
{
}

/// The code words in the order they are sent: data, padding, error correction, interleaved by
/// block. `None` if the payload does not fit.
pub fn codewords(payload: &[u8]) -> (words: Option<Vec<u8>>)
    ensures
        words is None <==> payload@.len() > MAX_BYTES,
        words matches Some(w) ==> w@ == codewords_of(payload@),
{
    if payload.len() > MAX_BYTES {
        return None;
    }
    let data = data_codewords(payload);
    let mut ec: Vec<Vec<u8>> = Vec::new();
    let mut b: usize = 0;
    while b < 4
        invariant
            0 <= b <= 4,
            data@ == data_of(payload@),
            ec@.len() == b,
            forall|j: int| 0 <= j < b ==> (#[trigger] ec@[j])@ == ec_of(payload@, j),
        decreases 4 - b,
    {
        let start: usize = b * 68 + if b > 2 { b - 2 } else { 0 };
        let end: usize = (b + 1) * 68 + if b + 1 > 2 { b - 1 } else { 0 };
        let block = slice_bytes(data.as_slice(), start, end);
        ec.push(ec_remainder(block.as_slice()));
        b = b + 1;
    }
    let mut out: Vec<u8> = Vec::new();
    let mut k: usize = 0;
    while k < TOTAL_CODEWORDS
        invariant
            0 <= k <= TOTAL_CODEWORDS,
            data@ == data_of(payload@),
            ec@.len() == 4,
            forall|j: int| 0 <= j < 4 ==> (#[trigger] ec@[j])@ == ec_of(payload@, j),
            forall|j: int| 0 <= j < 4 ==> (#[trigger] ec@[j])@.len() == EC_PER_BLOCK,
            out@.len() == k,
            forall|j: int| 0 <= j < k ==> out@[j] == codeword_at(payload@, j),
        decreases TOTAL_CODEWORDS - k,
    {
        let word: u8 = if k < 272 {
            let block = k % 4;
            data[block * 68 + (if block > 2 { block - 2 } else { 0 }) + k / 4]
        } else if k == 272 {
            data[136 + 68]
        } else if k == 273 {
            data[205 + 68]
        } else {
            ec[(k - 274) % 4][(k - 274) / 4]
        };
        out.push(word);
        k = k + 1;
    }
    assert(out@ =~= codewords_of(payload@));
    Some(out)
}

/// Index of module (`x`, `y`) in the row-major list of modules.
pub open spec fn cell(x: int, y: int) -> int {
    y * SIZE + x
}

/// The BCH remainder of the format information after `n` more steps of the division by 0x537.
pub open spec fn format_remainder(rem: u32, n: nat) -> u32
    decreases n,
{
    if n == 0 { rem } else { format_remainder((rem << 1u32) ^ (((rem >> 9u32) * 0x537) as u32), (n - 1) as nat) }
}

/// The 15 format bits for error correction level L and `mask`: the level and mask, their BCH
/// remainder, XOR 0x5412.
pub open spec fn format_bits(mask: u8) -> u32 {
    let data = (1u32 << 3u32) | (mask as u32);
    ((data << 10u32) | format_remainder(data, 10)) ^ 0x5412u32
}

/// The modules that carry the format information, and the one that is always dark, numbered in
/// the order they are drawn: the copy beside the top-left finder (bits 0 to 14), then the copy
/// split between the other two finders (bits 0 to 7 along row 8, bits 8 to 14 down column 8),
/// then the dark module.
pub open spec fn format_order(x: int, y: int) -> Option<int> {
    if x == 8 && 0 <= y <= 5 { Some(y) }
    else if x == 8 && y == 7 { Some(6) }
    else if x == 8 && y == 8 { Some(7) }
    else if x == 7 && y == 8 { Some(8) }
    else if y == 8 && 0 <= x <= 5 { Some(14 - x) }
    else if y == 8 && 49 <= x <= 56 { Some(71 - x) }
    else if x == 8 && 50 <= y <= 56 { Some(y - 27) }
    else if x == 8 && y == 49 { Some(30) }
    else { None }
}

/// Whether the format module drawn `w`-th is dark for `mask`.
pub open spec fn format_dark(mask: u8, w: int) -> bool {
    if w == 30 { true } else { (format_bits(mask) >> ((if w < 15 { w } else { w - 15 }) as u32)) & 1 == 1 }
}

/// Two modules of the matrix at one index are one module.
proof fn lemma_cell_injective(x1: int, y1: int, x2: int, y2: int)
    requires
        0 <= x1 < SIZE,
        0 <= x2 < SIZE,
        0 <= y1 < SIZE,
        0 <= y2 < SIZE,
        cell(x1, y1) == cell(x2, y2),
    ensures
        x1 == x2 && y1 == y2,
{
    assert(y1 == y2) by (nonlinear_arith)
        requires
            0 <= x1 < 57,
            0 <= x2 < 57,
            y1 * 57 + x1 == y2 * 57 + x2;
}

/// A write to one module leaves every other module as it was.
proof fn lemma_write_elsewhere(before: Seq<bool>, x0: int, y0: int, value: bool, x: int, y: int)
    requires
        before.len() == MODULES,
        0 <= x0 < SIZE,
        0 <= y0 < SIZE,
        0 <= x < SIZE,
        0 <= y < SIZE,
        x != x0 || y != y0,
    ensures
        before.update(cell(x0, y0), value)[cell(x, y)] == before[cell(x, y)],
{
    if cell(x, y) == cell(x0, y0) {
        lemma_cell_injective(x, y, x0, y0);
    }
    assert(0 <= cell(x, y) < MODULES) by (nonlinear_arith)
        requires 0 <= x < 57, 0 <= y < 57, MODULES == 3249;
}

/// Drawing the `done`-th format module keeps the ones drawn before it, and every module that
/// carries no format information as it was.
proof fn lemma_format_write(before: Seq<bool>, after: Seq<bool>, fbefore: Seq<bool>, fafter: Seq<bool>, orig: Seq<bool>,
    forig: Seq<bool>, x0: int, y0: int, dark: bool, mask: u8, done: int)
    requires
        before.len() == MODULES,
        fbefore.len() == MODULES,
        0 <= x0 < SIZE,
        0 <= y0 < SIZE,
        after == before.update(cell(x0, y0), dark),
        fafter == fbefore.update(cell(x0, y0), true),
        format_order(x0, y0) == Some(done),
        dark == format_dark(mask, done),
        forall|x: int, y: int| 0 <= x < SIZE && 0 <= y < SIZE && (#[trigger] format_order(x, y) matches Some(w) && w < done)
            ==> before[cell(x, y)] == format_dark(mask, format_order(x, y)->0) && fbefore[cell(x, y)],
        forall|x: int, y: int| 0 <= x < SIZE && 0 <= y < SIZE && #[trigger] format_order(x, y) is None
            ==> before[cell(x, y)] == orig[cell(x, y)] && fbefore[cell(x, y)] == forig[cell(x, y)],
    ensures
        forall|x: int, y: int| 0 <= x < SIZE && 0 <= y < SIZE && (#[trigger] format_order(x, y) matches Some(w) && w <= done)
            ==> after[cell(x, y)] == format_dark(mask, format_order(x, y)->0) && fafter[cell(x, y)],
        forall|x: int, y: int| 0 <= x < SIZE && 0 <= y < SIZE && #[trigger] format_order(x, y) is None
            ==> after[cell(x, y)] == orig[cell(x, y)] && fafter[cell(x, y)] == forig[cell(x, y)],
{
    assert forall|x: int, y: int| 0 <= x < SIZE && 0 <= y < SIZE && (#[trigger] format_order(x, y) matches Some(w) && w <= done)
        implies after[cell(x, y)] == format_dark(mask, format_order(x, y)->0) && fafter[cell(x, y)] by {
        if x != x0 || y != y0 {
            lemma_write_elsewhere(before, x0, y0, dark, x, y);
            lemma_write_elsewhere(fbefore, x0, y0, true, x, y);
        } else {
            assert(0 <= cell(x, y) < MODULES) by (nonlinear_arith)
                requires 0 <= x < 57, 0 <= y < 57, MODULES == 3249;
        }
    }
    assert forall|x: int, y: int| 0 <= x < SIZE && 0 <= y < SIZE && #[trigger] format_order(x, y) is None
        implies after[cell(x, y)] == orig[cell(x, y)] && fafter[cell(x, y)] == forig[cell(x, y)] by {
        lemma_write_elsewhere(before, x0, y0, dark, x, y);
        lemma_write_elsewhere(fbefore, x0, y0, true, x, y);
    }
}

/// Which finder pattern (with its light border) module (`x`, `y`) belongs to: 0 top left, 1 top
/// right, 2 bottom left.
pub open spec fn finder_corner(x: int, y: int) -> Option<int> {
    if 0 <= x <= 7 && 0 <= y <= 7 { Some(0) }
    else if 49 <= x <= 56 && 0 <= y <= 7 { Some(1) }
    else if 0 <= x <= 7 && 49 <= y <= 56 { Some(2) }
    else { None }
}

/// The centre of finder pattern `k`.
pub open spec fn corner_centre(k: int) -> (int, int) {
    if k == 0 { (3, 3) } else if k == 1 { (53, 3) } else { (3, 53) }
}

/// How many modules away from a centre (`dx`, `dy`) lies, counting diagonals as one.
pub open spec fn ring(dx: int, dy: int) -> int {
    let ax = if dx < 0 { -dx } else { dx };
    let ay = if dy < 0 { -dy } else { dy };
    if ax > ay { ax } else { ay }
}

/// Whether a module of a finder pattern is dark: the centre 3x3 and the ring at distance 3 are,
/// the rings at distance 2 and 4 (the border) are not.
pub open spec fn finder_dark(x: int, y: int) -> bool {
    let c = corner_centre(finder_corner(x, y)->0);
    ring(x - c.0, y - c.1) != 2 && ring(x - c.0, y - c.1) != 4
}

/// Whether the finder module (`x`, `y`) of pattern `k` is drawn once pattern `corner` has got as
/// far as (`dx`, `dy`), row by row.
pub open spec fn finder_done(k: int, x: int, y: int, corner: int, dx: int, dy: int) -> bool {
    let c = corner_centre(k);
    k < corner || (k == corner && (y - c.1 < dy || (y - c.1 == dy && x - c.0 < dx)))
}

/// Drawing module (`dx`, `dy`) of finder pattern `corner` keeps the ones drawn before.
proof fn lemma_finder_write(before: Seq<bool>, after: Seq<bool>, fbefore: Seq<bool>, fafter: Seq<bool>, corner: int, dx: int, dy: int)
    requires
        before.len() == MODULES,
        fbefore.len() == MODULES,
        0 <= corner < 3,
        -4 <= dx <= 4,
        -4 <= dy <= 4,
        ({
            let px = corner_centre(corner).0 + dx;
            let py = corner_centre(corner).1 + dy;
            if 0 <= px < SIZE && 0 <= py < SIZE {
                after == before.update(cell(px, py), ring(dx, dy) != 2 && ring(dx, dy) != 4)
                    && fafter == fbefore.update(cell(px, py), true)
            } else {
                after == before && fafter == fbefore
            }
        }),
        forall|x: int, y: int| 0 <= x < SIZE && 0 <= y < SIZE && (#[trigger] finder_corner(x, y) matches Some(k)
            && finder_done(k, x, y, corner, dx, dy)) ==> before[cell(x, y)] == finder_dark(x, y) && fbefore[cell(x, y)],
    ensures
        forall|x: int, y: int| 0 <= x < SIZE && 0 <= y < SIZE && (#[trigger] finder_corner(x, y) matches Some(k)
            && finder_done(k, x, y, corner, dx + 1, dy)) ==> after[cell(x, y)] == finder_dark(x, y) && fafter[cell(x, y)],
{
    let px = corner_centre(corner).0 + dx;
    let py = corner_centre(corner).1 + dy;
    assert forall|x: int, y: int| 0 <= x < SIZE && 0 <= y < SIZE && (#[trigger] finder_corner(x, y) matches Some(k)
        && finder_done(k, x, y, corner, dx + 1, dy)) implies after[cell(x, y)] == finder_dark(x, y) && fafter[cell(x, y)] by {
        if 0 <= px < SIZE && 0 <= py < SIZE {
            if x == px && y == py {
                assert(0 <= cell(x, y) < MODULES) by (nonlinear_arith)
                    requires 0 <= x < 57, 0 <= y < 57, MODULES == 3249;
            } else {
                lemma_write_elsewhere(before, px, py, ring(dx, dy) != 2 && ring(dx, dy) != 4, x, y);
                lemma_write_elsewhere(fbefore, px, py, true, x, y);
            }
        }
    }
}

/// Whether every module of the three finder patterns is drawn, and marked as a function module.
pub open spec fn finders_drawn(dark: Seq<bool>, function: Seq<bool>) -> bool {
    forall|x: int, y: int| 0 <= x < SIZE && 0 <= y < SIZE && #[trigger] finder_corner(x, y) is Some
        ==> dark[cell(x, y)] == finder_dark(x, y) && function[cell(x, y)]
}

/// Drawing a module outside the finder patterns keeps them drawn.
proof fn lemma_finders_kept(before: Seq<bool>, after: Seq<bool>, fbefore: Seq<bool>, fafter: Seq<bool>, px: int, py: int, value: bool)
    requires
        before.len() == MODULES,
        fbefore.len() == MODULES,
        finders_drawn(before, fbefore),
        if 0 <= px < SIZE && 0 <= py < SIZE {
            finder_corner(px, py) is None && after == before.update(cell(px, py), value) && fafter == fbefore.update(cell(px, py), true)
        } else {
            after == before && fafter == fbefore
        },
    ensures
        finders_drawn(after, fafter),
{
    assert forall|x: int, y: int| 0 <= x < SIZE && 0 <= y < SIZE && #[trigger] finder_corner(x, y) is Some
        implies after[cell(x, y)] == finder_dark(x, y) && fafter[cell(x, y)] by {
        if 0 <= px < SIZE && 0 <= py < SIZE {
            lemma_write_elsewhere(before, px, py, value, x, y);
            lemma_write_elsewhere(fbefore, px, py, true, x, y);
        }
    }
}

/// Whether module (`x`, `y`) belongs to a timing pattern: row 6 and column 6 between the finders.
pub open spec fn timing_cell(x: int, y: int) -> bool {
    (y == 6 && 8 <= x <= 48) || (x == 6 && 8 <= y <= 48)
}

/// The timing patterns alternate, dark on even positions.
pub open spec fn timing_dark(x: int, y: int) -> bool {
    if y == 6 { x % 2 == 0 } else { y % 2 == 0 }
}

/// Whether the timing patterns are drawn, and marked as function modules.
pub open spec fn timing_drawn(dark: Seq<bool>, function: Seq<bool>) -> bool {
    forall|x: int, y: int| 0 <= x < SIZE && 0 <= y < SIZE && #[trigger] timing_cell(x, y)
        ==> dark[cell(x, y)] == timing_dark(x, y) && function[cell(x, y)]
}

/// Drawing a module that is not part of a timing pattern, or is drawn as the pattern has it,
/// keeps the timing patterns drawn.
proof fn lemma_timing_kept(before: Seq<bool>, after: Seq<bool>, fbefore: Seq<bool>, fafter: Seq<bool>, px: int, py: int, value: bool)
    requires
        before.len() == MODULES,
        fbefore.len() == MODULES,
        timing_drawn(before, fbefore),
        if 0 <= px < SIZE && 0 <= py < SIZE {
            (timing_cell(px, py) ==> value == timing_dark(px, py)) && after == before.update(cell(px, py), value)
                && fafter == fbefore.update(cell(px, py), true)
        } else {
            after == before && fafter == fbefore
        },
    ensures
        timing_drawn(after, fafter),
{
    assert forall|x: int, y: int| 0 <= x < SIZE && 0 <= y < SIZE && #[trigger] timing_cell(x, y)
        implies after[cell(x, y)] == timing_dark(x, y) && fafter[cell(x, y)] by {
        if 0 <= px < SIZE && 0 <= py < SIZE {
            if x == px && y == py {
                assert(0 <= cell(x, y) < MODULES) by (nonlinear_arith)
                    requires 0 <= x < 57, 0 <= y < 57, MODULES == 3249;
            } else {
                lemma_write_elsewhere(before, px, py, value, x, y);
                lemma_write_elsewhere(fbefore, px, py, true, x, y);
            }
        }
    }
}

/// Which of the alignment rows or columns (6, 28, 50) coordinate `v` lies within two of.
pub open spec fn align_index(v: int) -> Option<int> {
    if 4 <= v <= 8 { Some(0) } else if 26 <= v <= 30 { Some(1) } else if 48 <= v <= 52 { Some(2) } else { None }
}

/// The coordinate of alignment row or column `i`.
pub open spec fn align_coord(i: int) -> int {
    if i == 0 { 6 } else if i == 1 { 28 } else { 50 }
}

/// The alignment pattern with centre row `a` and centre column `b` would overlap a finder.
pub open spec fn align_skipped(a: int, b: int) -> bool {
    (a == 0 && b == 0) || (a == 0 && b == 2) || (a == 2 && b == 0)
}

/// Whether module (`x`, `y`) belongs to one of the six alignment patterns.
pub open spec fn alignment_cell(x: int, y: int) -> bool {
    align_index(x) is Some && align_index(y) is Some && !align_skipped(align_index(y)->0, align_index(x)->0)
}

/// An alignment pattern is dark but for the ring right around its centre.
pub open spec fn alignment_dark(x: int, y: int) -> bool {
    ring(x - align_coord(align_index(x)->0), y - align_coord(align_index(y)->0)) != 1
}

/// Whether alignment module (`x`, `y`) is drawn once the pattern at centre row `a`, column `b`
/// has got as far as (`dx`, `dy`), row by row.
pub open spec fn alignment_done(x: int, y: int, a: int, b: int, dx: int, dy: int) -> bool {
    let ia = align_index(y)->0;
    let ib = align_index(x)->0;
    ia < a || (ia == a && (ib < b || (ib == b && (y - align_coord(a) < dy || (y - align_coord(a) == dy && x - align_coord(b) < dx)))))
}

/// Drawing module (`dx`, `dy`) of the alignment pattern at (`b`, `a`) keeps the ones drawn before.
proof fn lemma_alignment_write(before: Seq<bool>, after: Seq<bool>, fbefore: Seq<bool>, fafter: Seq<bool>, a: int, b: int,
    dx: int, dy: int)
    requires
        before.len() == MODULES,
        fbefore.len() == MODULES,
        0 <= a < 3,
        0 <= b < 3,
        !align_skipped(a, b),
        -2 <= dx <= 2,
        -2 <= dy <= 2,
        ({
            let px = align_coord(b) + dx;
            let py = align_coord(a) + dy;
            after == before.update(cell(px, py), ring(dx, dy) != 1) && fafter == fbefore.update(cell(px, py), true)
        }),
        forall|x: int, y: int| 0 <= x < SIZE && 0 <= y < SIZE && #[trigger] alignment_cell(x, y) && alignment_done(x, y, a, b, dx, dy)
            ==> before[cell(x, y)] == alignment_dark(x, y) && fbefore[cell(x, y)],
    ensures
        forall|x: int, y: int| 0 <= x < SIZE && 0 <= y < SIZE && #[trigger] alignment_cell(x, y) && alignment_done(x, y, a, b, dx + 1, dy)
            ==> after[cell(x, y)] == alignment_dark(x, y) && fafter[cell(x, y)],
{
    let px = align_coord(b) + dx;
    let py = align_coord(a) + dy;
    assert forall|x: int, y: int| 0 <= x < SIZE && 0 <= y < SIZE && #[trigger] alignment_cell(x, y) && alignment_done(x, y, a, b, dx + 1, dy)
        implies after[cell(x, y)] == alignment_dark(x, y) && fafter[cell(x, y)] by {
        if x == px && y == py {
            assert(0 <= cell(x, y) < MODULES) by (nonlinear_arith)
                requires 0 <= x < 57, 0 <= y < 57, MODULES == 3249;
        } else {
            lemma_write_elsewhere(before, px, py, ring(dx, dy) != 1, x, y);
            lemma_write_elsewhere(fbefore, px, py, true, x, y);
        }
    }
}

/// Whether the alignment patterns are drawn, and marked as function modules.
pub open spec fn alignments_drawn(dark: Seq<bool>, function: Seq<bool>) -> bool {
    forall|x: int, y: int| 0 <= x < SIZE && 0 <= y < SIZE && #[trigger] alignment_cell(x, y)
        ==> dark[cell(x, y)] == alignment_dark(x, y) && function[cell(x, y)]
}

/// Drawing a module outside the alignment patterns keeps them drawn.
proof fn lemma_alignments_kept(before: Seq<bool>, after: Seq<bool>, fbefore: Seq<bool>, fafter: Seq<bool>, px: int, py: int, value: bool)
    requires
        before.len() == MODULES,
        fbefore.len() == MODULES,
        alignments_drawn(before, fbefore),
        if 0 <= px < SIZE && 0 <= py < SIZE {
            !alignment_cell(px, py) && after == before.update(cell(px, py), value) && fafter == fbefore.update(cell(px, py), true)
        } else {
            after == before && fafter == fbefore
        },
    ensures
        alignments_drawn(after, fafter),
{
    assert forall|x: int, y: int| 0 <= x < SIZE && 0 <= y < SIZE && #[trigger] alignment_cell(x, y)
        implies after[cell(x, y)] == alignment_dark(x, y) && fafter[cell(x, y)] by {
        if 0 <= px < SIZE && 0 <= py < SIZE {
            lemma_write_elsewhere(before, px, py, value, x, y);
            lemma_write_elsewhere(fbefore, px, py, true, x, y);
        }
    }
}

/// The BCH remainder of the version information after `n` more steps of the division by 0x1f25.
pub open spec fn version_remainder(rem: u32, n: nat) -> u32
    decreases n,
{
    if n == 0 { rem } else { version_remainder((rem << 1u32) ^ (((rem >> 11u32) * 0x1f25) as u32), (n - 1) as nat) }
}

/// The 18 bits of version information for version 10.
pub open spec fn version_bits() -> u32 {
    (10u32 << 12u32) | version_remainder(10, 12)
}

/// Which bit of the version information module (`x`, `y`) carries: the block left of the top-right
/// finder, and its mirror above the bottom-left one.
pub open spec fn version_index(x: int, y: int) -> Option<int> {
    if 46 <= x <= 48 && 0 <= y <= 5 { Some(3 * y + (x - 46)) }
    else if 46 <= y <= 48 && 0 <= x <= 5 { Some(3 * x + (y - 46)) }
    else { None }
}

/// Whether version module (`x`, `y`) is dark.
pub open spec fn version_dark(x: int, y: int) -> bool {
    (version_bits() >> (version_index(x, y)->0 as u32)) & 1 == 1
}

/// Whether module (`x`, `y`) belongs to a function pattern: the finders with their borders, the
/// timing and alignment patterns, the version and the format information and the dark module.
pub open spec fn function_cell(x: int, y: int) -> bool {
    finder_corner(x, y) is Some || timing_cell(x, y) || alignment_cell(x, y) || version_index(x, y) is Some
        || format_order(x, y) is Some
}

/// Only modules of function patterns are marked as such, and every module not marked is light.
pub open spec fn fresh_outside(dark: Seq<bool>, function: Seq<bool>) -> bool {
    forall|x: int, y: int| #![trigger cell(x, y)] 0 <= x < SIZE && 0 <= y < SIZE
        ==> (function[cell(x, y)] ==> function_cell(x, y)) && (!function[cell(x, y)] ==> !dark[cell(x, y)])
}

/// Drawing a module of a function pattern keeps the rest of the matrix fresh.
proof fn lemma_fresh_write(before: Seq<bool>, after: Seq<bool>, fbefore: Seq<bool>, fafter: Seq<bool>, px: int, py: int, value: bool)
    requires
        before.len() == MODULES,
        fbefore.len() == MODULES,
        fresh_outside(before, fbefore),
        if 0 <= px < SIZE && 0 <= py < SIZE {
            function_cell(px, py) && after == before.update(cell(px, py), value) && fafter == fbefore.update(cell(px, py), true)
        } else {
            after == before && fafter == fbefore
        },
    ensures
        fresh_outside(after, fafter),
{
    assert forall|x: int, y: int| #![trigger cell(x, y)] 0 <= x < SIZE && 0 <= y < SIZE
        implies (fafter[cell(x, y)] ==> function_cell(x, y)) && (!fafter[cell(x, y)] ==> !after[cell(x, y)]) by {
        if 0 <= px < SIZE && 0 <= py < SIZE {
            if x == px && y == py {
                assert(0 <= cell(x, y) < MODULES) by (nonlinear_arith)
                    requires 0 <= x < 57, 0 <= y < 57, MODULES == 3249;
            } else {
                lemma_write_elsewhere(before, px, py, value, x, y);
                lemma_write_elsewhere(fbefore, px, py, true, x, y);
            }
        }
    }
}

/// The right-hand column of pair `p` of the zigzag that carries the data, pairs counted from the
/// right edge (column 6, the timing pattern, is stepped over).
pub open spec fn zig_right(p: int) -> int {
    if p < 25 { 56 - 2 * p } else { 5 - 2 * (p - 25) }
}

/// Whether pair `p` is walked upwards.
pub open spec fn zig_up(p: int) -> bool {
    (zig_right(p) + 1) % 4 < 2
}

/// The column of side `j` (0 right, 1 left) of pair `p`.
pub open spec fn zig_x(p: int, j: int) -> int {
    zig_right(p) - j
}

/// The row the walk of pair `p` is at after `v` steps.
pub open spec fn zig_y(p: int, v: int) -> int {
    if zig_up(p) { 56 - v } else { v }
}

/// The pair of the zigzag column `x` belongs to.
pub open spec fn zig_pair(x: int) -> int {
    if x >= 7 { (56 - x - x % 2) / 2 } else { 25 + (4 - x + x % 2) / 2 }
}

/// The side of its pair column `x` is on.
pub open spec fn zig_side(x: int) -> int {
    zig_right(zig_pair(x)) - x
}

/// How many steps of its pair's walk it takes to reach row `y` of column `x`.
pub open spec fn zig_step(x: int, y: int) -> int {
    if zig_up(zig_pair(x)) { 56 - y } else { y }
}

/// Whether the walk meets a module free for data at step `v`, side `j` of pair `p`.
pub open spec fn free_at(p: int, v: int, j: int) -> bool {
    !function_cell(zig_x(p, j), zig_y(p, v))
}

/// How many modules free for data the walk meets before step `v`, side `j` of pair `p`.
pub open spec fn free_before(p: int, v: int, j: int) -> int
    decreases p, v, j,
{
    if j > 0 {
        free_before(p, v, j - 1) + if free_at(p, v, j - 1) { 1int } else { 0int }
    } else if v > 0 {
        free_before(p, v - 1, 1) + if free_at(p, v - 1, 1) { 1int } else { 0int }
    } else if p > 0 {
        free_before(p - 1, 56, 1) + if free_at(p - 1, 56, 1) { 1int } else { 0int }
    } else {
        0
    }
}

/// How many bits the code words hold.
pub open spec fn data_bits() -> int {
    TOTAL_CODEWORDS * 8
}

/// `n`, or the number of data bits when it is more.
pub open spec fn capped(n: int) -> int {
    if n < data_bits() { n } else { data_bits() }
}

/// Bit `k` of the code words, most significant bit of each word first.
pub open spec fn data_bit(words: Seq<u8>, k: int) -> bool {
    (words[k / 8] >> ((7 - k % 8) as u8)) & 1 == 1
}

/// The module free for data at (`x`, `y`) before masking: the bit of the code words whose number
/// is how many free modules the walk meets before it; light when the bits have run out.
pub open spec fn data_dark(words: Seq<u8>, x: int, y: int) -> bool {
    let rank = free_before(zig_pair(x), zig_step(x, y), zig_side(x));
    rank < data_bits() && data_bit(words, rank)
}

/// Whether the walk reaches module (`x`, `y`) before step `v`, side `j` of pair `p`.
pub open spec fn precedes(x: int, y: int, p: int, v: int, j: int) -> bool {
    let pp = zig_pair(x);
    let vv = zig_step(x, y);
    pp < p || (pp == p && (vv < v || (vv == v && zig_side(x) < j)))
}

/// The walk visits a module of the matrix outside column 6, and finds its place again from it.
proof fn lemma_zig(p: int, v: int, j: int)
    requires
        0 <= p < 28,
        0 <= v < SIZE,
        0 <= j <= 1,
    ensures
        0 <= zig_x(p, j) < SIZE,
        zig_x(p, j) != 6,
        0 <= zig_y(p, v) < SIZE,
        zig_pair(zig_x(p, j)) == p,
        zig_side(zig_x(p, j)) == j,
        zig_step(zig_x(p, j), zig_y(p, v)) == v,
{
}

/// Every module outside column 6 has a place in the walk.
proof fn lemma_zig_back(x: int, y: int)
    requires
        0 <= x < SIZE,
        0 <= y < SIZE,
        x != 6,
    ensures
        0 <= zig_pair(x) < 28,
        0 <= zig_side(x) <= 1,
        0 <= zig_step(x, y) < SIZE,
        zig_x(zig_pair(x), zig_side(x)) == x,
        zig_y(zig_pair(x), zig_step(x, y)) == y,
{
}

/// One step of the walk: the module it meets gets the next bit when it is free and bits are left.
proof fn lemma_codeword_step(words: Seq<u8>, before: Seq<bool>, after: Seq<bool>, p: int, v: int, j: int, bit: int, wrote: bool)
    requires
        before.len() == MODULES,
        0 <= p < 28,
        0 <= v < SIZE,
        0 <= j <= 1,
        bit == capped(free_before(p, v, j)),
        wrote == (free_at(p, v, j) && bit < data_bits()),
        wrote ==> after == before.update(cell(zig_x(p, j), zig_y(p, v)), data_bit(words, bit)),
        !wrote ==> after == before,
        forall|x: int, y: int| #![trigger function_cell(x, y)] 0 <= x < SIZE && 0 <= y < SIZE && !function_cell(x, y)
            ==> before[cell(x, y)] == (precedes(x, y, p, v, j) && data_dark(words, x, y)),
    ensures
        forall|x: int, y: int| #![trigger function_cell(x, y)] 0 <= x < SIZE && 0 <= y < SIZE && !function_cell(x, y)
            ==> after[cell(x, y)] == (precedes(x, y, p, v, j + 1) && data_dark(words, x, y)),
        capped(free_before(p, v, j + 1)) == bit + if wrote { 1int } else { 0int },
{
    let x0 = zig_x(p, j);
    let y0 = zig_y(p, v);
    lemma_zig(p, v, j);
    assert forall|x: int, y: int| #![trigger function_cell(x, y)] 0 <= x < SIZE && 0 <= y < SIZE && !function_cell(x, y)
        implies after[cell(x, y)] == (precedes(x, y, p, v, j + 1) && data_dark(words, x, y)) by {
        assert(!function_cell(x, y));
        lemma_zig_back(x, y);
        if x == x0 && y == y0 {
            if wrote {
                assert(0 <= cell(x, y) < MODULES) by (nonlinear_arith)
                    requires 0 <= x < 57, 0 <= y < 57, MODULES == 3249;
            }
        } else {
            if wrote {
                lemma_write_elsewhere(before, x0, y0, data_bit(words, bit), x, y);
            }
        }
    }
}

/// Marking a module outside the format information keeps the format modules marked.
proof fn lemma_format_flags_kept(fbefore: Seq<bool>, fafter: Seq<bool>, px: int, py: int)
    requires
        fbefore.len() == MODULES,
        forall|x: int, y: int| 0 <= x < SIZE && 0 <= y < SIZE && #[trigger] format_order(x, y) is Some ==> fbefore[cell(x, y)],
        if 0 <= px < SIZE && 0 <= py < SIZE {
            format_order(px, py) is None && fafter == fbefore.update(cell(px, py), true)
        } else {
            fafter == fbefore
        },
    ensures
        forall|x: int, y: int| 0 <= x < SIZE && 0 <= y < SIZE && #[trigger] format_order(x, y) is Some ==> fafter[cell(x, y)],
{
    assert forall|x: int, y: int| 0 <= x < SIZE && 0 <= y < SIZE && #[trigger] format_order(x, y) is Some implies fafter[cell(x, y)] by {
        if 0 <= px < SIZE && 0 <= py < SIZE {
            lemma_write_elsewhere(fbefore, px, py, true, x, y);
        }
    }
}

/// The module of a function pattern at (`x`, `y`), for `mask`.
pub open spec fn function_dark(mask: u8, x: int, y: int) -> bool {
    if finder_corner(x, y) is Some { finder_dark(x, y) }
    else if timing_cell(x, y) { timing_dark(x, y) }
    else if alignment_cell(x, y) { alignment_dark(x, y) }
    else if version_index(x, y) is Some { version_dark(x, y) }
    else { format_dark(mask, format_order(x, y)->0) }
}

/// Module (`x`, `y`) of the symbol for code words `words` drawn with `mask`: the function patterns
/// and the format information, and elsewhere the data bit laid out by the walk, inverted where the
/// mask says so.
pub open spec fn symbol_dark(words: Seq<u8>, mask: u8, x: int, y: int) -> bool {
    if function_cell(x, y) { function_dark(mask, x, y) } else { data_dark(words, x, y) != masked(mask, x, y) }
}

/// Module `i` of line `line` of `dark`: of row `line` when `horizontal`, else of column `line`.
pub open spec fn line_module(dark: Seq<bool>, line: int, horizontal: bool, i: int) -> bool {
    if horizontal { dark[cell(i, line)] } else { dark[cell(line, i)] }
}

/// How long the run of like modules ending at module `i` of the line is.
pub open spec fn run_at(dark: Seq<bool>, line: int, horizontal: bool, i: int) -> int
    decreases i,
{
    if i <= 0 {
        1
    } else if line_module(dark, line, horizontal, i) == line_module(dark, line, horizontal, i - 1) {
        run_at(dark, line, horizontal, i - 1) + 1
    } else {
        1
    }
}

/// The points for runs of five or more like modules among the first `n` of the line: 3 for the
/// fifth module of a run and 1 for each one after it.
pub open spec fn run_points(dark: Seq<bool>, line: int, horizontal: bool, n: int) -> int
    decreases n,
{
    if n <= 1 {
        0
    } else {
        let run = run_at(dark, line, horizontal, n - 1);
        run_points(dark, line, horizontal, n - 1) + if run == 5 { 3int } else if run > 5 { 1int } else { 0int }
    }
}

/// The first `k` modules of the line from `start`, read as a binary number, first module highest.
pub open spec fn window(dark: Seq<bool>, line: int, horizontal: bool, start: int, k: int) -> int
    decreases k,
{
    if k <= 0 {
        0
    } else {
        window(dark, line, horizontal, start, k - 1) * 2 + if line_module(dark, line, horizontal, start + k - 1) { 1int } else { 0int }
    }
}

/// Whether the 11 modules of the line from `start` look like a finder: 1011101 with four light
/// modules on one side.
pub open spec fn finder_like(dark: Seq<bool>, line: int, horizontal: bool, start: int) -> bool {
    window(dark, line, horizontal, start, 11) == 0b10111010000 || window(dark, line, horizontal, start, 11) == 0b00001011101
}

/// How many of the first `n` starts of the line look like a finder.
pub open spec fn finder_count(dark: Seq<bool>, line: int, horizontal: bool, n: int) -> int
    decreases n,
{
    if n <= 0 { 0 } else { finder_count(dark, line, horizontal, n - 1) + if finder_like(dark, line, horizontal, n - 1) { 1int } else { 0int } }
}

/// The points of one line: its runs, and 40 for each finder look-alike.
pub open spec fn line_points(dark: Seq<bool>, line: int, horizontal: bool) -> int {
    run_points(dark, line, horizontal, SIZE as int) + 40 * finder_count(dark, line, horizontal, SIZE - 10)
}

/// The points of the first `n` rows and columns.
pub open spec fn lines_points(dark: Seq<bool>, n: int) -> int
    decreases n,
{
    if n <= 0 { 0 } else { lines_points(dark, n - 1) + line_points(dark, n - 1, true) + line_points(dark, n - 1, false) }
}

/// Whether the 2x2 block with top-left module (`x`, `y`) is all alike.
pub open spec fn block_alike(dark: Seq<bool>, x: int, y: int) -> bool {
    dark[cell(x, y)] == dark[cell(x + 1, y)] && dark[cell(x, y)] == dark[cell(x, y + 1)] && dark[cell(x, y)] == dark[cell(x + 1, y + 1)]
}

/// How many of the blocks of row `y` with their left column before `n` are alike.
pub open spec fn row_blocks(dark: Seq<bool>, y: int, n: int) -> int
    decreases n,
{
    if n <= 0 { 0 } else { row_blocks(dark, y, n - 1) + if block_alike(dark, n - 1, y) { 1int } else { 0int } }
}

/// How many of the blocks with their top row before `n` are alike.
pub open spec fn blocks_alike(dark: Seq<bool>, n: int) -> int
    decreases n,
{
    if n <= 0 { 0 } else { blocks_alike(dark, n - 1) + row_blocks(dark, n - 1, SIZE - 1) }
}

/// How many of the first `n` modules are dark.
pub open spec fn dark_count(dark: Seq<bool>, n: int) -> int
    decreases n,
{
    if n <= 0 { 0 } else { dark_count(dark, n - 1) + if dark[n - 1] { 1int } else { 0int } }
}

/// The points for the balance of dark and light: 10 for each full 5% the share of dark modules
/// (rounded down to a multiple of 5%) lies away from half, counting from the nearer side.
pub open spec fn balance_points(dark: int) -> int {
    let percent = dark * 100 / (MODULES as int);
    let lower = percent - percent % 5;
    let below = if lower > 50 { lower - 50 } else { 50 - lower };
    let above = if lower + 5 > 50 { lower + 5 - 50 } else { 50 - (lower + 5) };
    (if below < above { below } else { above }) / 5 * 10
}

/// The penalty of a matrix by the four rules of the standard.
pub open spec fn penalty_of(dark: Seq<bool>) -> int {
    lines_points(dark, SIZE as int) + 3 * blocks_alike(dark, SIZE - 1) + balance_points(dark_count(dark, MODULES as int))
}

/// The matrix while it is drawn: which modules are dark, and which belong to the function patterns
/// (finders, timing, alignment, format and version), which the data and the mask leave alone.
struct Matrix {
    dark: Vec<bool>,
    function: Vec<bool>,
}

impl Matrix {
    spec fn wf(&self) -> bool {
        self.dark@.len() == MODULES && self.function@.len() == MODULES
    }

    fn new() -> (m: Matrix)
        ensures
            m.wf(),
            forall|i: int| 0 <= i < MODULES ==> !(#[trigger] m.function@[i]) && !m.dark@[i],
            fresh_outside(m.dark@, m.function@),
    {
        let mut dark: Vec<bool> = Vec::new();
        let mut function: Vec<bool> = Vec::new();
        let mut i: usize = 0;
        while i < MODULES
            invariant
                0 <= i <= MODULES,
                dark@.len() == i && function@.len() == i,
                forall|j: int| 0 <= j < i ==> !(#[trigger] function@[j]) && !dark@[j],
            decreases MODULES - i,
        {
            dark.push(false);
            function.push(false);
            i = i + 1;
        }
        assert forall|x: int, y: int| #![trigger cell(x, y)] 0 <= x < SIZE && 0 <= y < SIZE
            implies !function@[cell(x, y)] && !dark@[cell(x, y)] by {
            assert(0 <= cell(x, y) < MODULES) by (nonlinear_arith)
                requires 0 <= x < 57, 0 <= y < 57, MODULES == 3249;
        }
        Matrix { dark, function }
    }

    fn get(&self, x: usize, y: usize) -> (dark: bool)
        requires
            self.wf(),
            x < SIZE,
            y < SIZE,
        ensures
            dark == self.dark@[y * SIZE + x],
    {
        self.dark[y * SIZE + x]
    }

    fn is_function(&self, x: usize, y: usize) -> (function: bool)
        requires
            self.wf(),
            x < SIZE,
            y < SIZE,
        ensures
            function == self.function@[y * SIZE + x],
    {
        self.function[y * SIZE + x]
    }

    /// Makes module (`x`, `y`) part of a function pattern, dark or light; outside the matrix, nothing.
    fn set_function(&mut self, x: i64, y: i64, dark: bool)
        requires
            old(self).wf(),
        ensures
            final(self).wf(),
            (0 <= x < SIZE && 0 <= y < SIZE) ==> final(self).dark@ == old(self).dark@.update(y * SIZE + x, dark)
                && final(self).function@ == old(self).function@.update(y * SIZE + x, true),
            !(0 <= x < SIZE && 0 <= y < SIZE) ==> *final(self) == *old(self),
    {
        if x < 0 || y < 0 || x >= SIZE as i64 || y >= SIZE as i64 {
            return;
        }
        let at = (y as usize) * SIZE + (x as usize);
        self.function.set(at, true);
        self.dark.set(at, dark);
    }

    fn build(codewords: &[u8], mask: u8) -> (m: Matrix)
        requires
            codewords@.len() == TOTAL_CODEWORDS,
        ensures
            m.wf(),
            forall|x: int, y: int| 0 <= x < SIZE && 0 <= y < SIZE && #[trigger] format_order(x, y) is Some
                ==> m.dark@[cell(x, y)] == format_dark(mask, format_order(x, y)->0),
            forall|x: int, y: int| 0 <= x < SIZE && 0 <= y < SIZE && #[trigger] finder_corner(x, y) is Some
                ==> m.dark@[cell(x, y)] == finder_dark(x, y),
            forall|x: int, y: int| 0 <= x < SIZE && 0 <= y < SIZE && #[trigger] timing_cell(x, y)
                ==> m.dark@[cell(x, y)] == timing_dark(x, y),
            forall|x: int, y: int| 0 <= x < SIZE && 0 <= y < SIZE && #[trigger] alignment_cell(x, y)
                ==> m.dark@[cell(x, y)] == alignment_dark(x, y),
            forall|x: int, y: int| 0 <= x < SIZE && 0 <= y < SIZE && #[trigger] version_index(x, y) is Some
                ==> m.dark@[cell(x, y)] == version_dark(x, y),
            forall|x: int, y: int| #![trigger cell(x, y)] 0 <= x < SIZE && 0 <= y < SIZE
                ==> m.dark@[cell(x, y)] == symbol_dark(codewords@, mask, x, y),
            m.dark@ == symbol_of(codewords@, mask),
    {
        let mut m = Matrix::new();
        m.draw_function_patterns();
        let ghost drawn = m.dark@;
        proof {
            assert forall|x: int, y: int| #![trigger cell(x, y)] 0 <= x < SIZE && 0 <= y < SIZE
                implies m.function@[cell(x, y)] == function_cell(x, y) by {
                if function_cell(x, y) {
                    if finder_corner(x, y) is Some {
                    } else if timing_cell(x, y) {
                    } else if alignment_cell(x, y) {
                    } else if version_index(x, y) is Some {
                    } else {
                        assert(format_order(x, y) is Some);
                    }
                }
            }
            assert forall|x: int, y: int| #![trigger function_cell(x, y)] 0 <= x < SIZE && 0 <= y < SIZE && !function_cell(x, y)
                implies !m.dark@[cell(x, y)] by {
                assert(m.function@[cell(x, y)] == function_cell(x, y));
            }
        }
        m.draw_codewords(codewords);
        let ghost placed = m.dark@;
        let ghost flags = m.function@;
        m.apply_mask(mask);
        proof {
            assert forall|x: int, y: int| #![trigger function_cell(x, y)] 0 <= x < SIZE && 0 <= y < SIZE && !function_cell(x, y)
                implies m.dark@[cell(x, y)] == (data_dark(codewords@, x, y) != masked(mask, x, y)) by {
                let i = cell(x, y);
                assert(0 <= i < MODULES && i % (SIZE as int) == x && i / (SIZE as int) == y) by (nonlinear_arith)
                    requires 0 <= x < 57, 0 <= y < 57, MODULES == 3249, SIZE == 57, i == y * 57 + x;
                assert(flags[i] == function_cell(x, y));
                assert(placed[i] == data_dark(codewords@, x, y));
            }
        }
        proof {
            assert forall|x: int, y: int| 0 <= x < SIZE && 0 <= y < SIZE && #[trigger] finder_corner(x, y) is Some
                implies m.dark@[cell(x, y)] == finder_dark(x, y) && m.function@[cell(x, y)] by {
                assert(0 <= cell(x, y) < MODULES) by (nonlinear_arith)
                    requires 0 <= x < 57, 0 <= y < 57, MODULES == 3249;
                assert(drawn[cell(x, y)] == finder_dark(x, y));
            }
            assert forall|x: int, y: int| 0 <= x < SIZE && 0 <= y < SIZE && #[trigger] timing_cell(x, y)
                implies m.dark@[cell(x, y)] == timing_dark(x, y) && m.function@[cell(x, y)] by {
                assert(0 <= cell(x, y) < MODULES) by (nonlinear_arith)
                    requires 0 <= x < 57, 0 <= y < 57, MODULES == 3249;
                assert(drawn[cell(x, y)] == timing_dark(x, y));
            }
            assert forall|x: int, y: int| 0 <= x < SIZE && 0 <= y < SIZE && #[trigger] alignment_cell(x, y)
                implies m.dark@[cell(x, y)] == alignment_dark(x, y) && m.function@[cell(x, y)] by {
                assert(0 <= cell(x, y) < MODULES) by (nonlinear_arith)
                    requires 0 <= x < 57, 0 <= y < 57, MODULES == 3249;
                assert(drawn[cell(x, y)] == alignment_dark(x, y));
            }
            assert forall|x: int, y: int| 0 <= x < SIZE && 0 <= y < SIZE && #[trigger] version_index(x, y) is Some
                implies m.dark@[cell(x, y)] == version_dark(x, y) && m.function@[cell(x, y)] by {
                assert(0 <= cell(x, y) < MODULES) by (nonlinear_arith)
                    requires 0 <= x < 57, 0 <= y < 57, MODULES == 3249;
                assert(drawn[cell(x, y)] == version_dark(x, y));
            }
        }
        let ghost masked_dark = m.dark@;
        m.draw_format(mask);
        proof {
            assert forall|x: int, y: int| #![trigger cell(x, y)] 0 <= x < SIZE && 0 <= y < SIZE
                implies m.dark@[cell(x, y)] == symbol_dark(codewords@, mask, x, y) by {
                if !function_cell(x, y) {
                    assert(format_order(x, y) is None);
                    assert(masked_dark[cell(x, y)] == (data_dark(codewords@, x, y) != masked(mask, x, y)));
                } else if finder_corner(x, y) is Some {
                    assert(format_order(x, y) is None);
                    assert(masked_dark[cell(x, y)] == finder_dark(x, y));
                } else if timing_cell(x, y) {
                    assert(format_order(x, y) is None);
                    assert(masked_dark[cell(x, y)] == timing_dark(x, y));
                } else if alignment_cell(x, y) {
                    assert(format_order(x, y) is None);
                    assert(masked_dark[cell(x, y)] == alignment_dark(x, y));
                } else if version_index(x, y) is Some {
                    assert(format_order(x, y) is None);
                    assert(masked_dark[cell(x, y)] == version_dark(x, y));
                } else {
                    assert(format_order(x, y) is Some);
                }
            }
        }
        proof {
            assert forall|x: int, y: int| 0 <= x < SIZE && 0 <= y < SIZE && #[trigger] finder_corner(x, y) is Some
                implies m.dark@[cell(x, y)] == finder_dark(x, y) by {
                assert(format_order(x, y) is None);
                assert(masked_dark[cell(x, y)] == finder_dark(x, y));
            }
            assert forall|x: int, y: int| 0 <= x < SIZE && 0 <= y < SIZE && #[trigger] timing_cell(x, y)
                implies m.dark@[cell(x, y)] == timing_dark(x, y) by {
                assert(format_order(x, y) is None);
                assert(masked_dark[cell(x, y)] == timing_dark(x, y));
            }
            assert forall|x: int, y: int| 0 <= x < SIZE && 0 <= y < SIZE && #[trigger] alignment_cell(x, y)
                implies m.dark@[cell(x, y)] == alignment_dark(x, y) by {
                assert(format_order(x, y) is None);
                assert(masked_dark[cell(x, y)] == alignment_dark(x, y));
            }
            assert forall|x: int, y: int| 0 <= x < SIZE && 0 <= y < SIZE && #[trigger] version_index(x, y) is Some
                implies m.dark@[cell(x, y)] == version_dark(x, y) by {
                assert(format_order(x, y) is None);
                assert(masked_dark[cell(x, y)] == version_dark(x, y));
            }
        }
        proof {
            assert forall|i: int| 0 <= i < MODULES implies #[trigger] m.dark@[i] == symbol_of(codewords@, mask)[i] by {
                let x = i % (SIZE as int);
                let y = i / (SIZE as int);
                assert(0 <= x < SIZE && 0 <= y < SIZE && cell(x, y) == i) by (nonlinear_arith)
                    requires 0 <= i < 3249, SIZE == 57, x == i % 57, y == i / 57;
            }
            assert(m.dark@ =~= symbol_of(codewords@, mask));
        }
        m
    }

    fn draw_function_patterns(&mut self)
        requires
            old(self).wf(),
            fresh_outside(old(self).dark@, old(self).function@),
        ensures
            final(self).wf(),
            fresh_outside(final(self).dark@, final(self).function@),
            forall|x: int, y: int| 0 <= x < SIZE && 0 <= y < SIZE && #[trigger] format_order(x, y) is Some ==> final(self).function@[cell(x, y)],
            forall|x: int, y: int| 0 <= x < SIZE && 0 <= y < SIZE && #[trigger] finder_corner(x, y) is Some
                ==> final(self).dark@[cell(x, y)] == finder_dark(x, y) && final(self).function@[cell(x, y)],
            timing_drawn(final(self).dark@, final(self).function@),
            alignments_drawn(final(self).dark@, final(self).function@),
            forall|x: int, y: int| 0 <= x < SIZE && 0 <= y < SIZE && #[trigger] version_index(x, y) is Some
                ==> final(self).dark@[cell(x, y)] == version_dark(x, y) && final(self).function@[cell(x, y)],
    {
        let mut i: i64 = 0;
        while i < SIZE as i64
            invariant
                0 <= i <= SIZE,
                self.wf(),
                fresh_outside(self.dark@, self.function@),
                forall|x: int, y: int| 0 <= x < SIZE && 0 <= y < SIZE && #[trigger] timing_cell(x, y) && (if y == 6 { x } else { y }) < i
                    ==> self.dark@[cell(x, y)] == timing_dark(x, y) && self.function@[cell(x, y)],
            decreases SIZE - i,
        {
            let ghost (before, fbefore) = (self.dark@, self.function@);
            self.set_function(6, i, i % 2 == 0);
            proof { lemma_fresh_write(before, self.dark@, fbefore, self.function@, 6, i as int, i % 2 == 0); }
            let ghost (middle, fmiddle) = (self.dark@, self.function@);
            self.set_function(i, 6, i % 2 == 0);
            proof {
                lemma_fresh_write(middle, self.dark@, fmiddle, self.function@, i as int, 6, i % 2 == 0);
                assert forall|x: int, y: int| 0 <= x < SIZE && 0 <= y < SIZE && #[trigger] timing_cell(x, y) && (if y == 6 { x } else { y }) < i + 1
                    implies self.dark@[cell(x, y)] == timing_dark(x, y) && self.function@[cell(x, y)] by {
                    assert(0 <= cell(x, y) < MODULES) by (nonlinear_arith)
                        requires 0 <= x < 57, 0 <= y < 57, MODULES == 3249;
                    if !(x == i && y == 6) {
                        lemma_write_elsewhere(middle, i as int, 6, i % 2 == 0, x, y);
                        lemma_write_elsewhere(fmiddle, i as int, 6, true, x, y);
                        if !(x == 6 && y == i) {
                            lemma_write_elsewhere(before, 6, i as int, i % 2 == 0, x, y);
                            lemma_write_elsewhere(fbefore, 6, i as int, true, x, y);
                        }
                    }
                }
            }
            i = i + 1;
        }
        assert(timing_drawn(self.dark@, self.function@));
        let far: i64 = SIZE as i64 - 4;
        let mut corner: usize = 0;
        while corner < 3
            invariant
                0 <= corner <= 3,
                far == SIZE - 4,
                self.wf(),
                fresh_outside(self.dark@, self.function@),
                forall|x: int, y: int| 0 <= x < SIZE && 0 <= y < SIZE && (#[trigger] finder_corner(x, y) matches Some(k)
                    && k < corner) ==> self.dark@[cell(x, y)] == finder_dark(x, y) && self.function@[cell(x, y)],
                timing_drawn(self.dark@, self.function@),
            decreases 3 - corner,
        {
            let (cx, cy): (i64, i64) = if corner == 0 { (3, 3) } else if corner == 1 { (far, 3) } else { (3, far) };
            assert((cx as int, cy as int) == corner_centre(corner as int));
            let mut dy: i64 = -4;
            while dy <= 4
                invariant
                    -4 <= dy <= 5,
                    0 <= corner < 3,
                    (cx as int, cy as int) == corner_centre(corner as int),
                    self.wf(),
                    fresh_outside(self.dark@, self.function@),
                    forall|x: int, y: int| 0 <= x < SIZE && 0 <= y < SIZE && (#[trigger] finder_corner(x, y) matches Some(k)
                        && finder_done(k, x, y, corner as int, -4, dy as int))
                        ==> self.dark@[cell(x, y)] == finder_dark(x, y) && self.function@[cell(x, y)],
                    timing_drawn(self.dark@, self.function@),
                decreases 5 - dy,
            {
                let mut dx: i64 = -4;
                while dx <= 4
                    invariant
                        -4 <= dx <= 5,
                        -4 <= dy <= 4,
                        0 <= corner < 3,
                        (cx as int, cy as int) == corner_centre(corner as int),
                        self.wf(),
                        fresh_outside(self.dark@, self.function@),
                        forall|x: int, y: int| 0 <= x < SIZE && 0 <= y < SIZE && (#[trigger] finder_corner(x, y) matches Some(k)
                            && finder_done(k, x, y, corner as int, dx as int, dy as int))
                            ==> self.dark@[cell(x, y)] == finder_dark(x, y) && self.function@[cell(x, y)],
                        timing_drawn(self.dark@, self.function@),
                    decreases 5 - dx,
                {
                    let ax: i64 = if dx < 0 { -dx } else { dx };
                    let ay: i64 = if dy < 0 { -dy } else { dy };
                    let distance: i64 = if ax > ay { ax } else { ay };
                    let ghost (before, fbefore) = (self.dark@, self.function@);
                    self.set_function(cx + dx, cy + dy, distance != 2 && distance != 4);
                    proof {
                        lemma_finder_write(before, self.dark@, fbefore, self.function@, corner as int, dx as int, dy as int);
                        lemma_fresh_write(before, self.dark@, fbefore, self.function@, (cx + dx) as int, (cy + dy) as int,
                            distance != 2 && distance != 4);
                        lemma_timing_kept(before, self.dark@, fbefore, self.function@, (cx + dx) as int, (cy + dy) as int,
                            distance != 2 && distance != 4);
                    }
                    dx = dx + 1;
                }
                dy = dy + 1;
            }
            corner = corner + 1;
        }
        assert(finders_drawn(self.dark@, self.function@));
        let alignment: [i64; 3] = [6, 28, 50];
        let mut a: usize = 0;
        while a < 3
            invariant
                0 <= a <= 3,
                alignment@ == seq![6i64, 28i64, 50i64],
                self.wf(),
                fresh_outside(self.dark@, self.function@),
                finders_drawn(self.dark@, self.function@),
                timing_drawn(self.dark@, self.function@),
                forall|x: int, y: int| 0 <= x < SIZE && 0 <= y < SIZE && #[trigger] alignment_cell(x, y)
                    && alignment_done(x, y, a as int, 0, -2, -2) ==> self.dark@[cell(x, y)] == alignment_dark(x, y) && self.function@[cell(x, y)],
            decreases 3 - a,
        {
            let mut b: usize = 0;
            while b < 3
                invariant
                    0 <= b <= 3,
                    0 <= a < 3,
                    alignment@ == seq![6i64, 28i64, 50i64],
                    self.wf(),
                    fresh_outside(self.dark@, self.function@),
                    finders_drawn(self.dark@, self.function@),
                    timing_drawn(self.dark@, self.function@),
                    forall|x: int, y: int| 0 <= x < SIZE && 0 <= y < SIZE && #[trigger] alignment_cell(x, y)
                        && alignment_done(x, y, a as int, b as int, -2, -2) ==> self.dark@[cell(x, y)] == alignment_dark(x, y) && self.function@[cell(x, y)],
                decreases 3 - b,
            {
                if !((a == 0 && b == 0) || (a == 0 && b == 2) || (a == 2 && b == 0)) {
                    let cy = alignment[a];
                    let cx = alignment[b];
                    let mut dy: i64 = -2;
                    while dy <= 2
                        invariant
                            -2 <= dy <= 3,
                            0 <= cx <= 50 && 0 <= cy <= 50,
                            !(cx == 6 && cy == 6) && !(cx == 50 && cy == 6) && !(cx == 6 && cy == 50),
                            (cx == 6 || cx == 28 || cx == 50) && (cy == 6 || cy == 28 || cy == 50),
                            self.wf(),
                            fresh_outside(self.dark@, self.function@),
                            finders_drawn(self.dark@, self.function@),
                            timing_drawn(self.dark@, self.function@),
                            0 <= a < 3 && 0 <= b < 3 && !align_skipped(a as int, b as int),
                            cx == align_coord(b as int) && cy == align_coord(a as int),
                            forall|x: int, y: int| 0 <= x < SIZE && 0 <= y < SIZE && #[trigger] alignment_cell(x, y)
                                && alignment_done(x, y, a as int, b as int, -2, dy as int)
                                ==> self.dark@[cell(x, y)] == alignment_dark(x, y) && self.function@[cell(x, y)],
                        decreases 3 - dy,
                    {
                        let mut dx: i64 = -2;
                        while dx <= 2
                            invariant
                                -2 <= dx <= 3,
                                -2 <= dy <= 2,
                                0 <= cx <= 50 && 0 <= cy <= 50,
                                !(cx == 6 && cy == 6) && !(cx == 50 && cy == 6) && !(cx == 6 && cy == 50),
                                (cx == 6 || cx == 28 || cx == 50) && (cy == 6 || cy == 28 || cy == 50),
                                self.wf(),
                                fresh_outside(self.dark@, self.function@),
                                finders_drawn(self.dark@, self.function@),
                                timing_drawn(self.dark@, self.function@),
                                0 <= a < 3 && 0 <= b < 3 && !align_skipped(a as int, b as int),
                                cx == align_coord(b as int) && cy == align_coord(a as int),
                                forall|x: int, y: int| 0 <= x < SIZE && 0 <= y < SIZE && #[trigger] alignment_cell(x, y)
                                    && alignment_done(x, y, a as int, b as int, dx as int, dy as int)
                                    ==> self.dark@[cell(x, y)] == alignment_dark(x, y) && self.function@[cell(x, y)],
                            decreases 3 - dx,
                        {
                            let ax: i64 = if dx < 0 { -dx } else { dx };
                            let ay: i64 = if dy < 0 { -dy } else { dy };
                            let distance: i64 = if ax > ay { ax } else { ay };
                            let ghost (before, fbefore) = (self.dark@, self.function@);
                            self.set_function(cx + dx, cy + dy, distance != 1);
                            proof {
                                lemma_finders_kept(before, self.dark@, fbefore, self.function@, (cx + dx) as int, (cy + dy) as int, distance != 1);
                                lemma_timing_kept(before, self.dark@, fbefore, self.function@, (cx + dx) as int, (cy + dy) as int, distance != 1);
                                lemma_alignment_write(before, self.dark@, fbefore, self.function@, a as int, b as int, dx as int, dy as int);
                                lemma_fresh_write(before, self.dark@, fbefore, self.function@, (cx + dx) as int, (cy + dy) as int, distance != 1);
                            }
                            dx = dx + 1;
                        }
                        dy = dy + 1;
                    }
                }
                b = b + 1;
            }
            a = a + 1;
        }
        let ghost (before, fbefore) = (self.dark@, self.function@);
        self.draw_format(0);
        proof {
            assert forall|x: int, y: int| #![trigger cell(x, y)] 0 <= x < SIZE && 0 <= y < SIZE
                implies (self.function@[cell(x, y)] ==> function_cell(x, y)) && (!self.function@[cell(x, y)] ==> !self.dark@[cell(x, y)]) by {
                if format_order(x, y) is None {
                    assert(self.dark@[cell(x, y)] == before[cell(x, y)] && self.function@[cell(x, y)] == fbefore[cell(x, y)]);
                }
            }
            assert forall|x: int, y: int| 0 <= x < SIZE && 0 <= y < SIZE && #[trigger] finder_corner(x, y) is Some
                implies self.dark@[cell(x, y)] == finder_dark(x, y) && self.function@[cell(x, y)] by {
                assert(format_order(x, y) is None);
            }
            assert forall|x: int, y: int| 0 <= x < SIZE && 0 <= y < SIZE && #[trigger] timing_cell(x, y)
                implies self.dark@[cell(x, y)] == timing_dark(x, y) && self.function@[cell(x, y)] by {
                assert(format_order(x, y) is None);
                assert(before[cell(x, y)] == timing_dark(x, y) && fbefore[cell(x, y)]);
            }
            assert forall|x: int, y: int| 0 <= x < SIZE && 0 <= y < SIZE && #[trigger] alignment_cell(x, y)
                implies self.dark@[cell(x, y)] == alignment_dark(x, y) && self.function@[cell(x, y)] by {
                assert(format_order(x, y) is None);
                assert(alignment_done(x, y, 3, 0, -2, -2));
                assert(before[cell(x, y)] == alignment_dark(x, y) && fbefore[cell(x, y)]);
            }
        }
        let mut rem: u32 = 10;
        let mut step: usize = 0;
        while step < 12
            invariant
                0 <= step <= 12,
                rem < 4096,
                version_remainder(rem, (12 - step) as nat) == version_remainder(10, 12),
            decreases 12 - step,
        {
            assert(rem < 4096 ==> ((rem << 1u32) ^ (((rem >> 11u32) * 0x1f25) as u32)) < 4096) by (bit_vector);
            assert(rem < 4096 ==> (rem >> 11u32) <= 1) by (bit_vector);
            rem = (rem << 1u32) ^ ((rem >> 11u32) * 0x1f25);
            step = step + 1;
        }
        let bits: u32 = (10u32 << 12u32) | rem;
        assert(bits == version_bits());
        let mut i: u32 = 0;
        while i < 18
            invariant
                0 <= i <= 18,
                self.wf(),
                fresh_outside(self.dark@, self.function@),
                finders_drawn(self.dark@, self.function@),
                timing_drawn(self.dark@, self.function@),
                alignments_drawn(self.dark@, self.function@),
                bits == version_bits(),
                forall|x: int, y: int| 0 <= x < SIZE && 0 <= y < SIZE && #[trigger] format_order(x, y) is Some ==> self.function@[cell(x, y)],
                forall|x: int, y: int| 0 <= x < SIZE && 0 <= y < SIZE && (#[trigger] version_index(x, y) matches Some(k) && k < i)
                    ==> self.dark@[cell(x, y)] == version_dark(x, y) && self.function@[cell(x, y)],
            decreases 18 - i,
        {
            let bit = (bits >> i) & 1 == 1;
            let a: i64 = SIZE as i64 - 11 + (i % 3) as i64;
            let b: i64 = (i / 3) as i64;
            let ghost (start, fstart) = (self.dark@, self.function@);
            let ghost (before, fbefore) = (self.dark@, self.function@);
            self.set_function(a, b, bit);
            proof {
                lemma_finders_kept(before, self.dark@, fbefore, self.function@, a as int, b as int, bit);
                lemma_timing_kept(before, self.dark@, fbefore, self.function@, a as int, b as int, bit);
                lemma_alignments_kept(before, self.dark@, fbefore, self.function@, a as int, b as int, bit);
                lemma_fresh_write(before, self.dark@, fbefore, self.function@, a as int, b as int, bit);
                lemma_format_flags_kept(fbefore, self.function@, a as int, b as int);
            }
            let ghost (before, fbefore) = (self.dark@, self.function@);
            self.set_function(b, a, bit);
            proof {
                lemma_finders_kept(before, self.dark@, fbefore, self.function@, b as int, a as int, bit);
                lemma_timing_kept(before, self.dark@, fbefore, self.function@, b as int, a as int, bit);
                lemma_alignments_kept(before, self.dark@, fbefore, self.function@, b as int, a as int, bit);
                lemma_fresh_write(before, self.dark@, fbefore, self.function@, b as int, a as int, bit);
                lemma_format_flags_kept(fbefore, self.function@, b as int, a as int);
                let (middle, fmiddle) = (before, fbefore);
                assert forall|x: int, y: int| 0 <= x < SIZE && 0 <= y < SIZE && (#[trigger] version_index(x, y) matches Some(k) && k < i + 1)
                    implies self.dark@[cell(x, y)] == version_dark(x, y) && self.function@[cell(x, y)] by {
                    assert(0 <= cell(x, y) < MODULES) by (nonlinear_arith)
                        requires 0 <= x < 57, 0 <= y < 57, MODULES == 3249;
                    if !(x == b && y == a) {
                        lemma_write_elsewhere(middle, b as int, a as int, bit, x, y);
                        lemma_write_elsewhere(fmiddle, b as int, a as int, true, x, y);
                        if !(x == a && y == b) {
                            lemma_write_elsewhere(start, a as int, b as int, bit, x, y);
                            lemma_write_elsewhere(fstart, a as int, b as int, true, x, y);
                        }
                    }
                }
            }
            i = i + 1;
        }
    }

    /// The 15 format bits (level L, `mask`) around the finders, and the module that is always dark.
    fn draw_format(&mut self, mask: u8)
        requires
            old(self).wf(),
        ensures
            final(self).wf(),
            forall|x: int, y: int| 0 <= x < SIZE && 0 <= y < SIZE && #[trigger] format_order(x, y) is Some
                ==> final(self).dark@[cell(x, y)] == format_dark(mask, format_order(x, y)->0) && final(self).function@[cell(x, y)],
            forall|x: int, y: int| 0 <= x < SIZE && 0 <= y < SIZE && #[trigger] format_order(x, y) is None
                ==> final(self).dark@[cell(x, y)] == old(self).dark@[cell(x, y)]
                && final(self).function@[cell(x, y)] == old(self).function@[cell(x, y)],
    {
        let data: u32 = (FORMAT_LEVEL_L << 3u32) | (mask as u32);
        assert(data < 1024) by (bit_vector)
            requires data == (1u32 << 3u32) | (mask as u32), mask < 256;
        let mut rem: u32 = data;
        let mut step: usize = 0;
        while step < 10
            invariant
                0 <= step <= 10,
                rem < 1024,
                format_remainder(rem, (10 - step) as nat) == format_remainder(data, 10),
            decreases 10 - step,
        {
            assert(rem < 1024 ==> ((rem << 1u32) ^ (((rem >> 9u32) * 0x537) as u32)) < 1024) by (bit_vector);
            assert(rem < 1024 ==> (rem >> 9u32) <= 1) by (bit_vector);
            rem = (rem << 1u32) ^ ((rem >> 9u32) * 0x537);
            step = step + 1;
        }
        let bits: u32 = ((data << 10u32) | rem) ^ 0x5412;
        assert(bits == format_bits(mask));
        let size: i64 = SIZE as i64;
        let mut i: u32 = 0;
        while i <= 5
            invariant
                0 <= i <= 6,
                self.wf(),
                bits == format_bits(mask),
                forall|x: int, y: int| 0 <= x < SIZE && 0 <= y < SIZE && (#[trigger] format_order(x, y) matches Some(w) && w < i)
                    ==> self.dark@[cell(x, y)] == format_dark(mask, format_order(x, y)->0) && self.function@[cell(x, y)],
                forall|x: int, y: int| 0 <= x < SIZE && 0 <= y < SIZE && #[trigger] format_order(x, y) is None
                    ==> self.dark@[cell(x, y)] == old(self).dark@[cell(x, y)] && self.function@[cell(x, y)] == old(self).function@[cell(x, y)],
            decreases 6 - i,
        {
            let ghost (before, fbefore) = (self.dark@, self.function@);
            self.set_function(8, i as i64, (bits >> i) & 1 == 1);
            proof { lemma_format_write(before, self.dark@, fbefore, self.function@, old(self).dark@, old(self).function@, 8, i as int, (bits >> i) & 1 == 1, mask, i as int); }
            i = i + 1;
        }
        let ghost (before, fbefore) = (self.dark@, self.function@);
        self.set_function(8, 7, (bits >> 6u32) & 1 == 1);
        proof { lemma_format_write(before, self.dark@, fbefore, self.function@, old(self).dark@, old(self).function@, 8, 7, (bits >> 6u32) & 1 == 1, mask, 6); }
        let ghost (before, fbefore) = (self.dark@, self.function@);
        self.set_function(8, 8, (bits >> 7u32) & 1 == 1);
        proof { lemma_format_write(before, self.dark@, fbefore, self.function@, old(self).dark@, old(self).function@, 8, 8, (bits >> 7u32) & 1 == 1, mask, 7); }
        let ghost (before, fbefore) = (self.dark@, self.function@);
        self.set_function(7, 8, (bits >> 8u32) & 1 == 1);
        proof { lemma_format_write(before, self.dark@, fbefore, self.function@, old(self).dark@, old(self).function@, 7, 8, (bits >> 8u32) & 1 == 1, mask, 8); }
        let mut i: u32 = 9;
        while i < 15
            invariant
                9 <= i <= 15,
                self.wf(),
                bits == format_bits(mask),
                forall|x: int, y: int| 0 <= x < SIZE && 0 <= y < SIZE && (#[trigger] format_order(x, y) matches Some(w) && w < i)
                    ==> self.dark@[cell(x, y)] == format_dark(mask, format_order(x, y)->0) && self.function@[cell(x, y)],
                forall|x: int, y: int| 0 <= x < SIZE && 0 <= y < SIZE && #[trigger] format_order(x, y) is None
                    ==> self.dark@[cell(x, y)] == old(self).dark@[cell(x, y)] && self.function@[cell(x, y)] == old(self).function@[cell(x, y)],
            decreases 15 - i,
        {
            let ghost (before, fbefore) = (self.dark@, self.function@);
            self.set_function(14 - i as i64, 8, (bits >> i) & 1 == 1);
            proof { lemma_format_write(before, self.dark@, fbefore, self.function@, old(self).dark@, old(self).function@, 14 - i, 8, (bits >> i) & 1 == 1, mask, i as int); }
            i = i + 1;
        }
        let mut i: u32 = 0;
        while i < 8
            invariant
                0 <= i <= 8,
                size == SIZE,
                self.wf(),
                bits == format_bits(mask),
                forall|x: int, y: int| 0 <= x < SIZE && 0 <= y < SIZE && (#[trigger] format_order(x, y) matches Some(w) && w < 15 + i)
                    ==> self.dark@[cell(x, y)] == format_dark(mask, format_order(x, y)->0) && self.function@[cell(x, y)],
                forall|x: int, y: int| 0 <= x < SIZE && 0 <= y < SIZE && #[trigger] format_order(x, y) is None
                    ==> self.dark@[cell(x, y)] == old(self).dark@[cell(x, y)] && self.function@[cell(x, y)] == old(self).function@[cell(x, y)],
            decreases 8 - i,
        {
            let ghost (before, fbefore) = (self.dark@, self.function@);
            self.set_function(size - 1 - i as i64, 8, (bits >> i) & 1 == 1);
            proof { lemma_format_write(before, self.dark@, fbefore, self.function@, old(self).dark@, old(self).function@, 56 - i, 8, (bits >> i) & 1 == 1, mask, 15 + i); }
            i = i + 1;
        }
        let mut i: u32 = 8;
        while i < 15
            invariant
                8 <= i <= 15,
                size == SIZE,
                self.wf(),
                bits == format_bits(mask),
                forall|x: int, y: int| 0 <= x < SIZE && 0 <= y < SIZE && (#[trigger] format_order(x, y) matches Some(w) && w < 15 + i)
                    ==> self.dark@[cell(x, y)] == format_dark(mask, format_order(x, y)->0) && self.function@[cell(x, y)],
                forall|x: int, y: int| 0 <= x < SIZE && 0 <= y < SIZE && #[trigger] format_order(x, y) is None
                    ==> self.dark@[cell(x, y)] == old(self).dark@[cell(x, y)] && self.function@[cell(x, y)] == old(self).function@[cell(x, y)],
            decreases 15 - i,
        {
            let ghost (before, fbefore) = (self.dark@, self.function@);
            self.set_function(8, size - 15 + i as i64, (bits >> i) & 1 == 1);
            proof { lemma_format_write(before, self.dark@, fbefore, self.function@, old(self).dark@, old(self).function@, 8, 42 + i, (bits >> i) & 1 == 1, mask, 15 + i); }
            i = i + 1;
        }
        let ghost (before, fbefore) = (self.dark@, self.function@);
        self.set_function(8, size - 8, true);
        proof { lemma_format_write(before, self.dark@, fbefore, self.function@, old(self).dark@, old(self).function@, 8, 49, true, mask, 30); }
    }

    /// The bits of the code words in the zigzag of two-module columns, right to left, skipping the
    /// function patterns; the function patterns stay as they are.
    fn draw_codewords(&mut self, codewords: &[u8])
        requires
            old(self).wf(),
            codewords@.len() == TOTAL_CODEWORDS,
            forall|x: int, y: int| #![trigger cell(x, y)] 0 <= x < SIZE && 0 <= y < SIZE
                ==> old(self).function@[cell(x, y)] == function_cell(x, y),
            forall|x: int, y: int| #![trigger function_cell(x, y)] 0 <= x < SIZE && 0 <= y < SIZE && !function_cell(x, y)
                ==> !old(self).dark@[cell(x, y)],
        ensures
            final(self).wf(),
            final(self).function@ == old(self).function@,
            forall|i: int| 0 <= i < MODULES && old(self).function@[i] ==> #[trigger] final(self).dark@[i] == old(self).dark@[i],
            forall|x: int, y: int| #![trigger function_cell(x, y)] 0 <= x < SIZE && 0 <= y < SIZE && !function_cell(x, y)
                ==> final(self).dark@[cell(x, y)] == data_dark(codewords@, x, y),
    {
        let mut bit: usize = 0;
        let mut p: usize = 0;
        proof {
            assert forall|x: int, y: int| #![trigger function_cell(x, y)] 0 <= x < SIZE && 0 <= y < SIZE && !function_cell(x, y)
                implies self.dark@[cell(x, y)] == (precedes(x, y, 0, 0, 0) && data_dark(codewords@, x, y)) by {
                assert(!function_cell(x, y));
                lemma_zig_back(x, y);
            }
        }
        while p < 28
            invariant
                0 <= p <= 28,
                codewords@.len() == TOTAL_CODEWORDS,
                self.wf(),
                self.function@ == old(self).function@,
                forall|x: int, y: int| #![trigger cell(x, y)] 0 <= x < SIZE && 0 <= y < SIZE
                    ==> old(self).function@[cell(x, y)] == function_cell(x, y),
                forall|i: int| 0 <= i < MODULES && old(self).function@[i] ==> #[trigger] self.dark@[i] == old(self).dark@[i],
                bit == capped(free_before(p as int, 0, 0)),
                forall|x: int, y: int| #![trigger function_cell(x, y)] 0 <= x < SIZE && 0 <= y < SIZE && !function_cell(x, y)
                    ==> self.dark@[cell(x, y)] == (precedes(x, y, p as int, 0, 0) && data_dark(codewords@, x, y)),
            decreases 28 - p,
        {
            let right: usize = if p < 25 { 56 - 2 * p } else { 5 - 2 * (p - 25) };
            let upward = (right + 1) % 4 < 2;
            let mut vertical: usize = 0;
            while vertical < SIZE
                invariant
                    0 <= p < 28,
                    0 <= vertical <= SIZE,
                    right == zig_right(p as int),
                    upward == zig_up(p as int),
                    codewords@.len() == TOTAL_CODEWORDS,
                    self.wf(),
                    self.function@ == old(self).function@,
                    forall|x: int, y: int| #![trigger cell(x, y)] 0 <= x < SIZE && 0 <= y < SIZE
                        ==> old(self).function@[cell(x, y)] == function_cell(x, y),
                    forall|i: int| 0 <= i < MODULES && old(self).function@[i] ==> #[trigger] self.dark@[i] == old(self).dark@[i],
                    bit == capped(free_before(p as int, vertical as int, 0)),
                    forall|x: int, y: int| #![trigger function_cell(x, y)] 0 <= x < SIZE && 0 <= y < SIZE && !function_cell(x, y)
                        ==> self.dark@[cell(x, y)] == (precedes(x, y, p as int, vertical as int, 0) && data_dark(codewords@, x, y)),
                decreases SIZE - vertical,
            {
                let mut j: usize = 0;
                while j < 2
                    invariant
                        0 <= p < 28,
                        0 <= vertical < SIZE,
                        0 <= j <= 2,
                        right == zig_right(p as int),
                        upward == zig_up(p as int),
                        codewords@.len() == TOTAL_CODEWORDS,
                        self.wf(),
                        self.function@ == old(self).function@,
                        forall|x: int, y: int| #![trigger cell(x, y)] 0 <= x < SIZE && 0 <= y < SIZE
                            ==> old(self).function@[cell(x, y)] == function_cell(x, y),
                        forall|i: int| 0 <= i < MODULES && old(self).function@[i] ==> #[trigger] self.dark@[i] == old(self).dark@[i],
                        bit == capped(free_before(p as int, vertical as int, j as int)),
                        forall|x: int, y: int| #![trigger function_cell(x, y)] 0 <= x < SIZE && 0 <= y < SIZE && !function_cell(x, y)
                            ==> self.dark@[cell(x, y)] == (precedes(x, y, p as int, vertical as int, j as int) && data_dark(codewords@, x, y)),
                    decreases 2 - j,
                {
                    proof { lemma_zig(p as int, vertical as int, j as int); }
                    let x = right - j;
                    let y = if upward { SIZE - 1 - vertical } else { vertical };
                    assert(x == zig_x(p as int, j as int) && y == zig_y(p as int, vertical as int));
                    let ghost before = self.dark@;
                    assert(self.function@[cell(x as int, y as int)] == function_cell(x as int, y as int));
                    let free = !self.is_function(x, y);
                    assert(free == free_at(p as int, vertical as int, j as int));
                    let wrote = free && bit < TOTAL_CODEWORDS * 8;
                    if wrote {
                        let value = (codewords[bit / 8] >> ((7 - bit % 8) as u8)) & 1 == 1;
                        self.dark.set(y * SIZE + x, value);
                        bit = bit + 1;
                    }
                    proof {
                        lemma_codeword_step(codewords@, before, self.dark@, p as int, vertical as int, j as int,
                            if wrote { bit - 1 } else { bit as int }, wrote);
                    }
                    j = j + 1;
                }
                proof {
                    assert forall|x: int, y: int| #![trigger function_cell(x, y)] 0 <= x < SIZE && 0 <= y < SIZE && !function_cell(x, y)
                        implies self.dark@[cell(x, y)] == (precedes(x, y, p as int, vertical + 1, 0) && data_dark(codewords@, x, y)) by {
                        assert(!function_cell(x, y));
                        lemma_zig_back(x, y);
                    }
                    assert(free_before(p as int, vertical + 1, 0) == free_before(p as int, vertical as int, 2));
                }
                vertical = vertical + 1;
            }
            proof {
                assert forall|x: int, y: int| #![trigger function_cell(x, y)] 0 <= x < SIZE && 0 <= y < SIZE && !function_cell(x, y)
                    implies self.dark@[cell(x, y)] == (precedes(x, y, p + 1, 0, 0) && data_dark(codewords@, x, y)) by {
                    assert(!function_cell(x, y));
                    lemma_zig_back(x, y);
                }
                assert(free_before(p + 1, 0, 0) == free_before(p as int, 57, 0));
            }
            p = p + 1;
        }
        proof {
            assert forall|x: int, y: int| #![trigger function_cell(x, y)] 0 <= x < SIZE && 0 <= y < SIZE && !function_cell(x, y)
                implies self.dark@[cell(x, y)] == data_dark(codewords@, x, y) by {
                assert(!function_cell(x, y));
                lemma_zig_back(x, y);
            }
        }
    }

    /// Inverts the modules outside the function patterns where mask `mask` says so.
    fn apply_mask(&mut self, mask: u8)
        requires
            old(self).wf(),
        ensures
            final(self).wf(),
            final(self).function@ == old(self).function@,
            forall|i: int| 0 <= i < MODULES ==> #[trigger] final(self).dark@[i]
                == (old(self).dark@[i] != (masked(mask, i % SIZE as int, i / SIZE as int) && !old(self).function@[i])),
    {
        let mut y: usize = 0;
        while y < SIZE
            invariant
                0 <= y <= SIZE,
                self.wf(),
                self.function@ == old(self).function@,
                forall|i: int| 0 <= i < y * SIZE ==> #[trigger] self.dark@[i]
                    == (old(self).dark@[i] != (masked(mask, i % SIZE as int, i / SIZE as int) && !old(self).function@[i])),
                forall|i: int| y * SIZE <= i < MODULES ==> #[trigger] self.dark@[i] == old(self).dark@[i],
            decreases SIZE - y,
        {
            let mut x: usize = 0;
            while x < SIZE
                invariant
                    0 <= x <= SIZE,
                    0 <= y < SIZE,
                    self.wf(),
                    self.function@ == old(self).function@,
                    forall|i: int| 0 <= i < y * SIZE + x ==> #[trigger] self.dark@[i]
                        == (old(self).dark@[i] != (masked(mask, i % SIZE as int, i / SIZE as int) && !old(self).function@[i])),
                    forall|i: int| y * SIZE + x <= i < MODULES ==> #[trigger] self.dark@[i] == old(self).dark@[i],
                decreases SIZE - x,
            {
                let invert = mask_bit(mask, x, y);
                let at = y * SIZE + x;
                assert((at as int) % (SIZE as int) == x && (at as int) / (SIZE as int) == y) by (nonlinear_arith)
                    requires at == y * SIZE + x, x < SIZE;
                if invert && !self.function[at] {
                    let flipped = !self.dark[at];
                    self.dark.set(at, flipped);
                }
                x = x + 1;
            }
            y = y + 1;
        }
    }

    /// The penalty of the matrix by the four rules of the standard: runs of five or more alike,
    /// 2x2 blocks alike, finder-like patterns, and the balance of dark and light.
    fn penalty(&self) -> (total: u32)
        requires
            self.wf(),
        ensures
            total == penalty_of(self.dark@),
    {
        let ghost d = self.dark@;
        let mut total: u32 = 0;
        let mut line: usize = 0;
        while line < SIZE
            invariant
                0 <= line <= SIZE,
                self.wf(),
                d == self.dark@,
                total <= line * 60000,
                total == lines_points(d, line as int),
            decreases SIZE - line,
        {
            let mut pass: usize = 0;
            while pass < 2
                invariant
                    0 <= pass <= 2,
                    0 <= line < SIZE,
                    self.wf(),
                    d == self.dark@,
                    total <= line * 60000 + pass * 30000,
                    total == lines_points(d, line as int) + (if pass >= 1 { line_points(d, line as int, true) } else { 0 })
                        + (if pass >= 2 { line_points(d, line as int, false) } else { 0 }),
                decreases 2 - pass,
            {
                let horizontal = pass == 0;
                let mut run: u32 = 1;
                let mut i: usize = 1;
                let mut added: u32 = 0;
                while i < SIZE
                    invariant
                        1 <= i <= SIZE,
                        0 <= line < SIZE,
                        self.wf(),
                        d == self.dark@,
                        1 <= run <= i,
                        added <= 3 * i,
                        run == run_at(d, line as int, horizontal, i - 1),
                        added == run_points(d, line as int, horizontal, i as int),
                    decreases SIZE - i,
                {
                    let here = if horizontal { self.get(i, line) } else { self.get(line, i) };
                    let before = if horizontal { self.get(i - 1, line) } else { self.get(line, i - 1) };
                    assert(here == line_module(d, line as int, horizontal, i as int));
                    assert(before == line_module(d, line as int, horizontal, i - 1));
                    if here == before {
                        run = run + 1;
                        added = added + if run == 5 { 3 } else if run > 5 { 1 } else { 0 };
                    } else {
                        run = 1;
                    }
                    i = i + 1;
                }
                let mut start: usize = 0;
                let mut found: u32 = 0;
                while start <= SIZE - 11
                    invariant
                        0 <= start <= SIZE - 10,
                        0 <= line < SIZE,
                        self.wf(),
                        d == self.dark@,
                        found <= 40 * start,
                        found == 40 * finder_count(d, line as int, horizontal, start as int),
                    decreases SIZE - 10 - start,
                {
                    let mut window_bits: u32 = 0;
                    let mut k: usize = 0;
                    assert(0u32 < (1u32 << 0u32)) by (bit_vector);
                    while k < 11
                        invariant
                            0 <= k <= 11,
                            start <= SIZE - 11,
                            0 <= line < SIZE,
                            self.wf(),
                            d == self.dark@,
                            window_bits < (1u32 << (k as u32)),
                            window_bits == window(d, line as int, horizontal, start as int, k as int),
                        decreases 11 - k,
                    {
                        let dark = if horizontal { self.get(start + k, line) } else { self.get(line, start + k) };
                        assert(dark == line_module(d, line as int, horizontal, start + k));
                        assert(window_bits < (1u32 << (k as u32)) && k < 11 ==> window_bits * 2 + 1 < (1u32 << ((k + 1) as u32))) by (bit_vector);
                        window_bits = window_bits * 2 + if dark { 1 } else { 0 };
                        k = k + 1;
                    }
                    if window_bits == 0b10111010000 || window_bits == 0b00001011101 {
                        found = found + 40;
                    }
                    start = start + 1;
                }
                total = total + added + found;
                pass = pass + 1;
            }
            line = line + 1;
        }
        let mut y: usize = 0;
        let mut blocks: u32 = 0;
        while y < SIZE - 1
            invariant
                0 <= y <= SIZE - 1,
                self.wf(),
                d == self.dark@,
                blocks <= 168 * y,
                blocks == 3 * blocks_alike(d, y as int),
            decreases SIZE - 1 - y,
        {
            let mut x: usize = 0;
            while x < SIZE - 1
                invariant
                    0 <= x <= SIZE - 1,
                    0 <= y < SIZE - 1,
                    self.wf(),
                    d == self.dark@,
                    blocks <= 168 * y + 3 * x,
                    blocks == 3 * (blocks_alike(d, y as int) + row_blocks(d, y as int, x as int)),
                decreases SIZE - 1 - x,
            {
                let color = self.get(x, y);
                let alike = color == self.get(x + 1, y) && color == self.get(x, y + 1) && color == self.get(x + 1, y + 1);
                assert(alike == block_alike(d, x as int, y as int));
                if alike {
                    blocks = blocks + 3;
                }
                x = x + 1;
            }
            y = y + 1;
        }
        let mut dark: u32 = 0;
        let mut i: usize = 0;
        while i < MODULES
            invariant
                0 <= i <= MODULES,
                self.wf(),
                d == self.dark@,
                dark <= i,
                dark == dark_count(d, i as int),
            decreases MODULES - i,
        {
            if self.dark[i] {
                dark = dark + 1;
            }
            i = i + 1;
        }
        let percent: u32 = dark * 100 / (MODULES as u32);
        let lower: u32 = percent - percent % 5;
        let below: u32 = if lower > 50 { lower - 50 } else { 50 - lower };
        let above: u32 = if lower + 5 > 50 { lower + 5 - 50 } else { 50 - (lower + 5) };
        let steps: u32 = (if below < above { below } else { above }) / 5;
        total + blocks + steps * 10
    }

    /// The dark modules as 57 rows of bits.
    fn rows(&self) -> (rows: [u64; SIZE])
        requires
            self.wf(),
        ensures
            forall|x: int, y: int| 0 <= x < SIZE && 0 <= y < SIZE ==> ((rows@[y] >> (x as u64)) & 1 == 1) == #[trigger] self.dark@[y * SIZE + x],
    {
        let mut rows: [u64; SIZE] = [0u64; SIZE];
        let mut y: usize = 0;
        while y < SIZE
            invariant
                0 <= y <= SIZE,
                self.wf(),
                forall|r: int, x: int| 0 <= r < y && 0 <= x < SIZE ==> ((rows@[r] >> (x as u64)) & 1 == 1) == #[trigger] self.dark@[r * SIZE + x],
            decreases SIZE - y,
        {
            let mut row: u64 = 0;
            let mut x: usize = 0;
            assert forall|c: u64| c < 64 implies #[trigger] ((0u64 >> c) & 1) == 0 by {
                assert(c < 64 ==> ((0u64 >> c) & 1) == 0) by (bit_vector);
            }
            while x < SIZE
                invariant
                    0 <= x <= SIZE,
                    0 <= y < SIZE,
                    self.wf(),
                    forall|c: int| 0 <= c < x ==> ((row >> (c as u64)) & 1 == 1) == #[trigger] self.dark@[y * SIZE + c],
                    forall|c: u64| x <= c < 64 ==> #[trigger] ((row >> c) & 1) == 0,
                decreases SIZE - x,
            {
                if self.dark[y * SIZE + x] {
                    let ghost before = row;
                    row = row | (1u64 << (x as u64));
                    proof { lemma_set_bit(before, x as u64); }
                }
                x = x + 1;
            }
            rows[y] = row;
            y = y + 1;
        }
        rows
    }
}

/// Setting bit `x` of `row` leaves the other bits as they were.
proof fn lemma_set_bit(row: u64, x: u64)
    requires
        x < 64,
    ensures
        forall|c: u64| c < 64 ==> #[trigger] (((row | (1u64 << x)) >> c) & 1) == (if c == x { 1u64 } else { (row >> c) & 1 }),
{
    assert forall|c: u64| c < 64 implies #[trigger] (((row | (1u64 << x)) >> c) & 1) == (if c == x { 1u64 } else { (row >> c) & 1 }) by {
        assert(c < 64 && x < 64 ==> (((row | (1u64 << x)) >> c) & 1) == (if c == x { 1u64 } else { (row >> c) & 1 })) by (bit_vector);
    }
}

/// Whether mask `mask` inverts module (`x`, `y`).
pub open spec fn masked(mask: u8, x: int, y: int) -> bool {
    if mask == 0 { (x + y) % 2 == 0 }
    else if mask == 1 { y % 2 == 0 }
    else if mask == 2 { x % 3 == 0 }
    else if mask == 3 { (x + y) % 3 == 0 }
    else if mask == 4 { (x / 3 + y / 2) % 2 == 0 }
    else if mask == 5 { (x * y) % 2 + (x * y) % 3 == 0 }
    else if mask == 6 { ((x * y) % 2 + (x * y) % 3) % 2 == 0 }
    else { ((x + y) % 2 + (x * y) % 3) % 2 == 0 }
}

fn mask_bit(mask: u8, x: usize, y: usize) -> (invert: bool)
    requires
        x < SIZE,
        y < SIZE,
    ensures
        invert == masked(mask, x as int, y as int),
{
    if mask == 0 { (x + y) % 2 == 0 }
    else if mask == 1 { y % 2 == 0 }
    else if mask == 2 { x % 3 == 0 }
    else if mask == 3 { (x + y) % 3 == 0 }
    else if mask == 4 { (x / 3 + y / 2) % 2 == 0 }
    else if mask == 5 {
        assert(x * y < 3249) by (nonlinear_arith) requires x < SIZE, y < SIZE;
        (x * y) % 2 + (x * y) % 3 == 0
    } else if mask == 6 {
        assert(x * y < 3249) by (nonlinear_arith) requires x < SIZE, y < SIZE;
        ((x * y) % 2 + (x * y) % 3) % 2 == 0
    } else {
        assert(x * y < 3249) by (nonlinear_arith) requires x < SIZE, y < SIZE;
        ((x + y) % 2 + (x * y) % 3) % 2 == 0
    }
}

/// How many modules the function patterns leave free for the bits of the code words.
pub fn data_module_count() -> (count: usize)
    ensures
        count <= MODULES,
{
    let mut m = Matrix::new();
    m.draw_function_patterns();
    let mut count: usize = 0;
    let mut i: usize = 0;
    while i < MODULES
        invariant
            0 <= i <= MODULES,
            count <= i,
            m.wf(),
        decreases MODULES - i,
    {
        if !m.function[i] {
            count = count + 1;
        }
        i = i + 1;
    }
    count
}

/// The symbol for code words `words` and `mask`, module by module in row order.
pub open spec fn symbol_of(words: Seq<u8>, mask: u8) -> Seq<bool> {
    Seq::new(MODULES as nat, |i: int| symbol_dark(words, mask, i % (SIZE as int), i / (SIZE as int)))
}

/// The penalty of the symbol for `words` drawn with `mask`.
pub open spec fn symbol_penalty(words: Seq<u8>, mask: u8) -> int {
    penalty_of(symbol_of(words, mask))
}

/// Whether `mask` (below 8) is the one `encode` picks for `words`: no mask has a lower penalty,
/// and every mask before it has a higher one.
pub open spec fn chosen_mask(words: Seq<u8>, mask: u8) -> bool {
    &&& mask < 8
    &&& forall|m: u8| m < 8 ==> #[trigger] symbol_penalty(words, m) >= symbol_penalty(words, mask)
    &&& forall|m: u8| m < mask ==> #[trigger] symbol_penalty(words, m) > symbol_penalty(words, mask)
}

/// Whether `q` is, module by module, the symbol for `words` drawn with `mask`.
pub open spec fn is_symbol(q: Qr, words: Seq<u8>, mask: u8) -> bool {
    forall|x: int, y: int| 0 <= x < SIZE && 0 <= y < SIZE ==> #[trigger] q.module(x, y) == symbol_dark(words, mask, x, y)
}

/// The symbol of a finished matrix.
fn symbol_rows(matrix: &Matrix, words: Ghost<Seq<u8>>, mask: Ghost<u8>) -> (q: Qr)
    requires
        matrix.wf(),
        matrix.dark@ == symbol_of(words@, mask@),
    ensures
        is_symbol(q, words@, mask@),
{
    let q = Qr { rows: matrix.rows() };
    assert forall|x: int, y: int| 0 <= x < SIZE && 0 <= y < SIZE implies #[trigger] q.module(x, y) == symbol_dark(words@, mask@, x, y) by {
        let i = y * SIZE + x;
        assert(0 <= i < MODULES && i % (SIZE as int) == x && i / (SIZE as int) == y) by (nonlinear_arith)
            requires 0 <= x < 57, 0 <= y < 57, MODULES == 3249, SIZE == 57, i == y * 57 + x;
        assert(matrix.dark@[i] == symbol_dark(words@, mask@, x, y));
    }
    q
}

/// Encodes `data`, picking the mask with the lowest penalty (the first of equals). `None` if it
/// does not fit.
#[verifier::spinoff_prover]
#[verifier::rlimit(100)]
pub fn encode(data: &[u8]) -> (qr: Option<Qr>)
    ensures
        qr is None <==> data@.len() > MAX_BYTES,
        match qr {
            Some(q) => exists|m: u8| #[trigger] chosen_mask(codewords_of(data@), m) && is_symbol(q, codewords_of(data@), m),
            None => true,
        },
{
    let words = match codewords(data) {
        Some(words) => words,
        None => return None,
    };
    let ghost w = words@;
    let mut best = Matrix::build(words.as_slice(), 0);
    let ghost mut chosen: u8 = 0;
    let mut lowest = best.penalty();
    let mut mask: u8 = 1;
    while mask < 8
        invariant
            1 <= mask <= 8,
            words@ == w,
            words@.len() == TOTAL_CODEWORDS,
            best.wf(),
            chosen < mask,
            best.dark@ == symbol_of(w, chosen),
            lowest == symbol_penalty(w, chosen),
            forall|m: u8| m < mask ==> #[trigger] symbol_penalty(w, m) >= symbol_penalty(w, chosen),
            forall|m: u8| m < chosen ==> #[trigger] symbol_penalty(w, m) > symbol_penalty(w, chosen),
        decreases 8 - mask,
    {
        let matrix = Matrix::build(words.as_slice(), mask);
        let penalty = matrix.penalty();
        assert(penalty == symbol_penalty(w, mask));
        if penalty < lowest {
            best = matrix;
            proof { chosen = mask; }
            lowest = penalty;
        }
        mask = mask + 1;
    }
    let q = symbol_rows(&best, Ghost(w), Ghost(chosen));
    let found = Some(q);
    assert(chosen_mask(w, chosen) && is_symbol(found->0, w, chosen));
    found
}

/// `encode` with a fixed mask (0..8), as a reference encoder would draw it.
pub fn encode_with_mask(data: &[u8], mask: u8) -> (qr: Option<Qr>)
    ensures
        qr is None <==> data@.len() > MAX_BYTES,
        qr matches Some(q) ==> is_symbol(q, codewords_of(data@), mask),
{
    let words = match codewords(data) {
        Some(words) => words,
        None => return None,
    };
    let matrix = Matrix::build(words.as_slice(), mask);
    let q = symbol_rows(&matrix, Ghost(words@), Ghost(mask));
    Some(q)
}

} // verus!
