//! Lossless packing of coverage bitmaps (glyphs and icons): `height` rows of `stride` bytes. Each
//! byte is predicted from its left, upper and upper-left neighbours (PNG's Paeth predictor, 0
//! outside the bitmap) and the difference is stored as tokens:
//!   00nnnnnn            n + 1 zeros
//!   010nnnnn h..        n + 3 signed nibbles, high nibble first, padded to a byte
//!   10nnnnnn b..        n + 1 bytes as they are
//! `unpack` undoes `pack`.

use vstd::prelude::*;

verus! {

/// Paeth predictor of PNG: whichever of left, up and up-left is closest to left + up - up-left
/// (left first, then up, on a tie).
pub open spec fn paeth_of(left: u8, up: u8, up_left: u8) -> u8 {
    let p = left + up - up_left;
    let pa = if p - left >= 0 { p - left } else { left - p };
    let pb = if p - up >= 0 { p - up } else { up - p };
    let pc = if p - up_left >= 0 { p - up_left } else { up_left - p };
    if pa <= pb && pa <= pc { left } else if pb <= pc { up } else { up_left }
}

pub fn paeth(left: u8, up: u8, up_left: u8) -> (predicted: u8)
    ensures
        predicted == paeth_of(left, up, up_left),
{
    let (a, b, c) = (left as i32, up as i32, up_left as i32);
    let p = a + b - c;
    let pa = if p - a >= 0 { p - a } else { a - p };
    let pb = if p - b >= 0 { p - b } else { b - p };
    let pc = if p - c >= 0 { p - c } else { c - p };
    if pa <= pb && pa <= pc { left } else if pb <= pc { up } else { up_left }
}

/// The neighbours of byte `i` of a bitmap `stride` wide, read from `bytes` (0 outside it).
pub open spec fn left_of(bytes: Seq<u8>, stride: nat, i: int) -> u8 {
    if i % stride as int > 0 { bytes[i - 1] } else { 0 }
}

pub open spec fn up_of(bytes: Seq<u8>, stride: nat, i: int) -> u8 {
    if i >= stride { bytes[i - stride] } else { 0 }
}

pub open spec fn up_left_of(bytes: Seq<u8>, stride: nat, i: int) -> u8 {
    if i >= stride && i % stride as int > 0 { bytes[i - stride - 1] } else { 0 }
}

/// What byte `i` of `bytes` is predicted to be.
pub open spec fn predicted(bytes: Seq<u8>, stride: nat, i: int) -> u8 {
    paeth_of(left_of(bytes, stride, i), up_of(bytes, stride, i), up_left_of(bytes, stride, i))
}

/// The differences `pack` stores: each byte of the `stride * height` bitmap less its prediction,
/// then any bytes beyond it less 0.
pub open spec fn residuals(coverage: Seq<u8>, stride: nat, height: nat) -> Seq<u8> {
    Seq::new(coverage.len(), |i: int| if i < stride * height {
        ((coverage[i] - predicted(coverage, stride, i)) % 256) as u8
    } else {
        coverage[i]
    })
}

/// The bitmap the differences `res` give back: each byte is its difference plus the prediction
/// from the bytes before it.
pub open spec fn restore(res: Seq<u8>, stride: nat) -> Seq<u8>
    decreases res.len(),
{
    if res.len() == 0 {
        Seq::empty()
    } else {
        let before = restore(res.drop_last(), stride);
        let i = res.len() - 1;
        before.push(((res.last() + predicted(before, stride, i)) % 256) as u8)
    }
}

/// How many bytes token `t` stands for.
pub open spec fn token_count(t: u8) -> int {
    if t / 64 == 0 { t % 64 + 1 } else if t / 64 == 1 { t % 32 + 3 } else { t % 64 + 1 }
}

/// How many bytes follow token `t` in the stream.
pub open spec fn token_width(t: u8) -> int {
    if t / 64 == 0 { 0 } else if t / 64 == 1 { (token_count(t) + 1) / 2 } else { token_count(t) }
}

/// A four-bit two's-complement number as a byte.
pub open spec fn nibble_value(n: int) -> u8 {
    if n < 8 { n as u8 } else { (n + 240) as u8 }
}

/// The differences the token at `at` stands for.
pub open spec fn token_residuals(packed: Seq<u8>, at: int) -> Seq<u8> {
    let t = packed[at];
    if t / 64 == 0 {
        Seq::new(token_count(t) as nat, |k: int| 0u8)
    } else if t / 64 == 1 {
        Seq::new(token_count(t) as nat, |k: int| nibble_value(if k % 2 == 0 { packed[at + 1 + k / 2] as int / 16 } else { packed[at + 1 + k / 2] as int % 16 }))
    } else {
        packed.subrange(at + 1, at + 1 + token_count(t))
    }
}

/// Whether the tokens from `at` on stand for exactly `remaining` bytes, each within the stream,
/// ending at `end`.
pub open spec fn tokens_end(packed: Seq<u8>, at: int, remaining: int, end: int) -> bool
    decreases remaining,
{
    if remaining <= 0 {
        remaining == 0 && at == end
    } else if at < 0 || at >= packed.len() {
        false
    } else {
        proof { lemma_count_positive(packed[at]); }
        &&& 0 <= at < packed.len()
        &&& token_count(packed[at]) <= remaining
        &&& at + 1 + token_width(packed[at]) <= packed.len()
        &&& tokens_end(packed, at + 1 + token_width(packed[at]), remaining - token_count(packed[at]), end)
    }
}

/// The differences the tokens from `at` on stand for, `remaining` of them.
pub open spec fn expand(packed: Seq<u8>, at: int, remaining: int) -> Seq<u8>
    decreases remaining,
{
    if remaining <= 0 || at < 0 || at >= packed.len() {
        Seq::empty()
    } else {
        let t = packed[at];
        proof { lemma_count_positive(t); }
        if token_count(t) > remaining {
            token_residuals(packed, at)
        } else {
            token_residuals(packed, at) + expand(packed, at + 1 + token_width(t), remaining - token_count(t))
        }
    }
}

/// A difference that fits a signed nibble.
pub open spec fn small(r: u8) -> bool {
    r <= 7 || r >= 248
}

fn is_small(r: u8) -> (yes: bool)
    ensures
        yes == small(r),
{
    r <= 7 || r >= 248
}

proof fn lemma_nibble(r: u8)
    requires
        small(r),
    ensures
        nibble_value((r % 16) as int) == r,
{
}

pub proof fn lemma_count_positive(t: u8)
    ensures
        1 <= token_count(t) <= 64,
        0 <= token_width(t) <= 64,
{
}

/// Packs the `height` rows of `stride` bytes at the start of `coverage`; bytes beyond them are
/// stored as they are.
pub fn pack(stride: usize, height: usize, coverage: &[u8]) -> (out: Vec<u8>)
    requires
        stride * height <= coverage@.len(),
    ensures
        tokens_end(out@, 0, coverage@.len() as int, out@.len() as int),
        expand(out@, 0, coverage@.len() as int) == residuals(coverage@, stride as nat, height as nat),
{
    let residual = residual_bytes(stride, height, coverage);
    let n = residual.len();
    let mut out: Vec<u8> = Vec::new();
    let mut i: usize = 0;
    let ghost res = residual@;
    while i < n
        invariant
            0 <= i <= n,
            n == res.len(),
            res == residual@,
            res == residuals(coverage@, stride as nat, height as nat),
            tokens_end(out@, 0, i as int, out@.len() as int),
            expand(out@, 0, i as int) == res.take(i as int),
        decreases n - i,
    {
        let ghost before = out@;
        let ghost at = i;
        let (mut token, next) = next_token(&residual, i);
        i = next;
        proof {
            let t = token@;
            lemma_count_positive(t[0]);
            assert(token_width(t[0]) == t.len() - 1);
            lemma_append(before, t, 0, at as int);
            assert(token_count(t[0]) == i - at);
            assert(res.take(at as int) + res.subrange(at as int, i as int) =~= res.take(i as int));
        }
        out.append(&mut token);
    }
    assert(res.take(n as int) =~= res);
    out
}

/// The next token for the differences from `i` on, and where the following one starts: a run of
/// zeros (up to 64); else at least three signed nibbles (up to 32, stopping before two zeros);
/// else bytes as they are (up to 64, stopping before a zero or three small non-zero differences).
fn next_token(residual: &Vec<u8>, i: usize) -> (token: (Vec<u8>, usize))
    requires
        i < residual@.len(),
    ensures
        i < token.1 <= residual@.len(),
        token.0@.len() >= 1,
        token_width(token.0@[0]) == token.0@.len() - 1,
        token_count(token.0@[0]) == token.1 - i,
        token_residuals(token.0@, 0) == residual@.subrange(i as int, token.1 as int),
{
    let n = residual.len();
    let ghost res = residual@;
    let mut i = i;
    let mut token: Vec<u8> = Vec::new();
    if residual[i] == 0 {
        let mut run: usize = 1;
        while i + run < n && run < 64 && residual[i + run] == 0
            invariant
                1 <= run <= 64,
                i + run <= n,
                n == residual@.len(),
                forall|k: int| i <= k < i + run ==> residual@[k] == 0,
            decreases n - i - run,
        {
            run = run + 1;
        }
        token.push((run - 1) as u8);
        assert(token_residuals(token@, 0) =~= res.subrange(i as int, i + run));
        i = i + run;
    } else {
        let mut nibbles: usize = 0;
        while i + nibbles < n && nibbles < 32 && is_small(residual[i + nibbles])
            && !(residual[i + nibbles] == 0 && i + nibbles + 1 < n && residual[i + nibbles + 1] == 0)
            invariant
                0 <= nibbles <= 32,
                i + nibbles <= n,
                n == residual@.len(),
                forall|k: int| i <= k < i + nibbles ==> small(residual@[k]),
            decreases n - i - nibbles,
        {
            nibbles = nibbles + 1;
        }
        if nibbles >= 3 {
            token.push(0x40 | ((nibbles - 3) as u8));
            assert((0x40u8 | ((nibbles - 3) as u8)) == 64 + (nibbles - 3)) by (bit_vector)
                requires nibbles >= 3 && nibbles <= 32;
            let mut k: usize = 0;
            while k < nibbles
                invariant
                    0 <= k <= nibbles + 1,
                    k % 2 == 0,
                    3 <= nibbles <= 32,
                    i + nibbles <= n,
                    n == residual@.len(),
                    forall|j: int| i <= j < i + nibbles ==> small(residual@[j]),
                    token@.len() == 1 + k / 2,
                    token@[0] == 64 + (nibbles - 3),
                    forall|j: int| 0 <= j < k / 2 ==> #[trigger] token@[1 + j]
                        == (residual@[i + 2 * j] % 16) * 16 + (if 2 * j + 1 < nibbles { residual@[i + 2 * j + 1] % 16 } else { 0 }),
                decreases nibbles + 1 - k,
            {
                let high: u8 = residual[i + k] % 16;
                let low: u8 = if k + 1 < nibbles { residual[i + k + 1] % 16 } else { 0 };
                token.push(high * 16 + low);
                k = k + 2;
            }
            proof {
                assert forall|j: int| 0 <= j < nibbles implies #[trigger] token_residuals(token@, 0)[j] == res[i + j] by {
                    lemma_nibble(res[i + j]);
                    let byte = token@[1 + j / 2];
                    if j % 2 == 0 {
                        assert(byte / 16 == res[i + j] % 16);
                    } else {
                        assert(byte % 16 == res[i + j] % 16);
                    }
                }
                assert(token_residuals(token@, 0) =~= res.subrange(i as int, i + nibbles));
            }
            i = i + nibbles;
        } else {
            let mut run: usize = 1;
            while i + run < n && run < 64 && residual[i + run] != 0
                && !(is_small(residual[i + run]) && i + run + 1 < n && is_small(residual[i + run + 1]) && residual[i + run + 1] != 0
                    && i + run + 2 < n && is_small(residual[i + run + 2]) && residual[i + run + 2] != 0)
                invariant
                    1 <= run <= 64,
                    i + run <= n,
                    n == residual@.len(),
                decreases n - i - run,
            {
                run = run + 1;
            }
            token.push(0x80 | ((run - 1) as u8));
            assert((0x80u8 | ((run - 1) as u8)) == 128 + (run - 1)) by (bit_vector)
                requires run >= 1 && run <= 64;
            let mut k: usize = 0;
            while k < run
                invariant
                    0 <= k <= run,
                    1 <= run <= 64,
                    i + run <= n,
                    n == residual@.len(),
                    token@.len() == 1 + k,
                    token@[0] == 128 + (run - 1),
                    forall|j: int| 1 <= j <= k ==> #[trigger] token@[j] == residual@[i + j - 1],
                decreases run - k,
            {
                token.push(residual[i + k]);
                k = k + 1;
            }
            assert(token@[0] / 64 == 2);
            assert(token_count(token@[0]) == run);
            assert(token_residuals(token@, 0) =~= res.subrange(i as int, i + run));
            i = i + run;
        }
    }
    proof { lemma_count_positive(token@[0]); }
    (token, i)
}

/// A stream of tokens with one more token `t` after its end stands for what it stood for, then
/// for what `t` stands for.
proof fn lemma_append(s: Seq<u8>, t: Seq<u8>, at: int, remaining: int)
    requires
        0 <= at,
        tokens_end(s, at, remaining, s.len() as int),
        t.len() >= 1,
        token_width(t[0]) == t.len() - 1,
    ensures
        tokens_end(s + t, at, remaining + token_count(t[0]), (s.len() + t.len()) as int),
        expand(s + t, at, remaining + token_count(t[0])) == expand(s, at, remaining) + token_residuals(t, 0),
    decreases remaining,
{
    lemma_count_positive(t[0]);
    let st = s + t;
    if remaining <= 0 {
        assert(at == s.len());
        assert(st[at] == t[0]);
        assert(token_residuals(st, at) =~= token_residuals(t, 0)) by {
            assert forall|k: int| 0 <= k < t.len() implies st[s.len() + k] == t[k] by {}
        }
        assert(tokens_end(st, at + 1 + token_width(t[0]), 0, (s.len() + t.len()) as int));
        assert(expand(st, at + 1 + token_width(t[0]), 0) == Seq::<u8>::empty());
        assert(expand(st, at, token_count(t[0])) == token_residuals(st, at) + expand(st, at + 1 + token_width(t[0]), 0));
        assert(expand(s, at, remaining) =~= Seq::<u8>::empty());
        assert(expand(st, at, remaining + token_count(t[0])) =~= expand(s, at, remaining) + token_residuals(t, 0));
    } else {
        let u = s[at];
        lemma_count_positive(u);
        assert(st[at] == u);
        let next = at + 1 + token_width(u);
        lemma_append(s, t, next, remaining - token_count(u));
        assert(token_residuals(st, at) =~= token_residuals(s, at)) by {
            assert forall|k: int| 0 <= k < s.len() implies st[k] == s[k] by {}
        }
        assert(remaining + token_count(t[0]) - token_count(u) == remaining - token_count(u) + token_count(t[0]));
        assert(expand(st, at, remaining + token_count(t[0])) =~= expand(s, at, remaining) + token_residuals(t, 0));
    }
}

/// The differences of the bitmap from its predictions.
fn residual_bytes(stride: usize, height: usize, coverage: &[u8]) -> (res: Vec<u8>)
    requires
        stride * height <= coverage@.len(),
    ensures
        res@ == residuals(coverage@, stride as nat, height as nat),
{
    let n = coverage.len();
    let total = stride * height;
    let mut res: Vec<u8> = Vec::new();
    let mut i: usize = 0;
    while i < n
        invariant
            0 <= i <= n,
            n == coverage@.len(),
            total == stride * height,
            total <= n,
            res@.len() == i,
            forall|j: int| 0 <= j < i ==> res@[j] == residuals(coverage@, stride as nat, height as nat)[j],
        decreases n - i,
    {
        if i < total {
            assert(stride > 0) by (nonlinear_arith) requires i < total, total == stride * height;
            let k = i % stride;
            assert(k <= i && (i == stride ==> k == 0)) by (nonlinear_arith) requires k == i % stride, stride > 0;
            let left: u8 = if k > 0 { coverage[i - 1] } else { 0 };
            let up: u8 = if i >= stride { coverage[i - stride] } else { 0 };
            let up_left: u8 = if i >= stride && k > 0 { coverage[i - stride - 1] } else { 0 };
            let p = paeth(left, up, up_left);
            res.push(coverage[i].wrapping_sub(p));
        } else {
            res.push(coverage[i]);
        }
        i = i + 1;
    }
    assert(res@ =~= residuals(coverage@, stride as nat, height as nat));
    res
}

/// The bitmap that the differences `res` give back, `stride` wide.
pub fn restore_bytes(res: &[u8], stride: usize) -> (out: Vec<u8>)
    requires
        stride > 0,
    ensures
        out@ == restore(res@, stride as nat),
{
    let mut out: Vec<u8> = Vec::new();
    let mut i: usize = 0;
    while i < res.len()
        invariant
            0 <= i <= res@.len(),
            stride > 0,
            out@ == restore(res@.take(i as int), stride as nat),
            out@.len() == i,
        decreases res@.len() - i,
    {
        proof { lemma_restore_len(res@.take(i as int), stride as nat); }
        let k = i % stride;
        assert(k <= i && (i == stride ==> k == 0)) by (nonlinear_arith) requires k == i % stride, stride > 0;
        let left: u8 = if k > 0 { out[i - 1] } else { 0 };
        let up: u8 = if i >= stride { out[i - stride] } else { 0 };
        let up_left: u8 = if i >= stride && k > 0 { out[i - stride - 1] } else { 0 };
        let p = paeth(left, up, up_left);
        out.push(res[i].wrapping_add(p));
        assert(res@.take(i + 1).drop_last() =~= res@.take(i as int));
        i = i + 1;
    }
    assert(res@.take(res@.len() as int) =~= res@);
    out
}

/// Tokens that stand for `remaining` bytes expand to that many.
pub proof fn lemma_expand_len(packed: Seq<u8>, at: int, remaining: int, end: int)
    requires
        tokens_end(packed, at, remaining, end),
    ensures
        expand(packed, at, remaining).len() == remaining,
    decreases remaining,
{
    if remaining > 0 {
        let t = packed[at];
        lemma_count_positive(t);
        lemma_expand_len(packed, at + 1 + token_width(t), remaining - token_count(t), end);
    }
}

pub proof fn lemma_restore_len(res: Seq<u8>, stride: nat)
    ensures
        restore(res, stride).len() == res.len(),
    decreases res.len(),
{
    if res.len() > 0 {
        lemma_restore_len(res.drop_last(), stride);
    }
}

/// The differences the tokens of `packed` stand for, `total` of them; every token within the stream.
pub fn expand_tokens(packed: &[u8], total: usize) -> (res: Vec<u8>)
    requires
        exists|end: int| tokens_end(packed@, 0, total as int, end),
    ensures
        res@ == expand(packed@, 0, total as int),
{
    let ghost end = choose|end: int| tokens_end(packed@, 0, total as int, end);
    let plen = packed.len();
    let mut res: Vec<u8> = Vec::new();
    let mut at: usize = 0;
    let mut done: usize = 0;
    while done < total
        invariant
            0 <= done <= total,
            plen == packed@.len(),
            tokens_end(packed@, at as int, total - done, end),
            res@ + expand(packed@, at as int, total - done) == expand(packed@, 0, total as int),
        decreases total - done,
    {
        let token = packed[at];
        proof { lemma_count_positive(token); }
        let kind = token / 64;
        let count: usize = if kind == 0 { (token % 64) as usize + 1 } else if kind == 1 { (token % 32) as usize + 3 } else { (token % 64) as usize + 1 };
        let ghost piece = token_residuals(packed@, at as int);
        let ghost before = res@;
        let mut k: usize = 0;
        while k < count
            invariant
                0 <= k <= count,
                count == token_count(token),
                token == packed@[at as int],
                kind == token / 64,
                at + 1 + token_width(token) <= packed@.len(),
                plen == packed@.len(),
                piece == token_residuals(packed@, at as int),
                res@ == before + piece.take(k as int),
            decreases count - k,
        {
            let value: u8 = if kind == 0 {
                0
            } else if kind == 1 {
                let byte = packed[at + 1 + k / 2];
                let nibble = if k % 2 == 0 { byte / 16 } else { byte % 16 };
                if nibble < 8 { nibble } else { nibble + 240 }
            } else {
                packed[at + 1 + k]
            };
            res.push(value);
            k = k + 1;
            assert(res@ =~= before + piece.take(k as int));
        }
        assert(piece.take(count as int) =~= piece);
        let width: usize = if kind == 0 { 0 } else if kind == 1 { (count + 1) / 2 } else { count };
        assert(before + piece + expand(packed@, at + 1 + width, total - done - count) =~= before + (piece + expand(packed@, at + 1 + width, total - done - count)));
        at = at + 1 + width;
        done = done + count;
    }
    assert(res@ + Seq::<u8>::empty() =~= res@);
    res
}

/// The bitmap `pack` packed: `stride * height` bytes. The tokens stand for exactly that many bytes
/// and end with the stream.
pub fn unpack(stride: usize, height: usize, packed: &[u8]) -> (out: Vec<u8>)
    requires
        stride * height <= usize::MAX,
        tokens_end(packed@, 0, stride * height, packed@.len() as int),
    ensures
        out@ == restore(expand(packed@, 0, stride * height), stride as nat),
{
    let total = stride * height;
    assert(tokens_end(packed@, 0, total as int, packed@.len() as int));
    let res = expand_tokens(packed, total);
    if total == 0 {
        assert(res@.len() == 0);
        return Vec::new();
    }
    assert(stride > 0) by (nonlinear_arith) requires total > 0, total == stride * height;
    restore_bytes(res.as_slice(), stride)
}

/// Unpacking what `pack` packed gives the bitmap back.
pub proof fn lemma_pack_round_trip(stride: nat, height: nat, coverage: Seq<u8>)
    requires
        coverage.len() == stride * height,
        stride > 0,
    ensures
        restore(residuals(coverage, stride, height), stride) == coverage,
{
    lemma_restore_prefix(coverage, stride, height, coverage.len() as int);
    assert(residuals(coverage, stride, height).take(coverage.len() as int) =~= residuals(coverage, stride, height));
    assert(coverage.take(coverage.len() as int) =~= coverage);
}

/// The prediction of byte `i` reads only bytes before it.
proof fn lemma_predicted_prefix(coverage: Seq<u8>, stride: nat, i: int)
    requires
        stride > 0,
        0 <= i < coverage.len(),
    ensures
        predicted(coverage.take(i), stride, i) == predicted(coverage, stride, i),
{
    let before = coverage.take(i);
    let k = i % (stride as int);
    assert(k <= i && (i == stride ==> k == 0)) by (nonlinear_arith) requires k == i % (stride as int), stride > 0, i >= 0;
    if k > 0 {
        assert(before[i - 1] == coverage[i - 1]);
    }
    if i >= stride {
        assert(before[i - stride] == coverage[i - stride]);
        if k > 0 {
            assert(before[i - stride - 1] == coverage[i - stride - 1]);
        }
    }
}

#[verifier::spinoff_prover]
proof fn lemma_restore_prefix(coverage: Seq<u8>, stride: nat, height: nat, i: int)
    requires
        coverage.len() == stride * height,
        stride > 0,
        0 <= i <= coverage.len(),
    ensures
        restore(residuals(coverage, stride, height).take(i), stride) == coverage.take(i),
    decreases i,
{
    if i > 0 {
        lemma_restore_prefix(coverage, stride, height, i - 1);
        let res = residuals(coverage, stride, height);
        assert(res.take(i).drop_last() =~= res.take(i - 1));
        lemma_predicted_prefix(coverage, stride, i - 1);
        assert(coverage.take(i) =~= coverage.take(i - 1).push(coverage[i - 1]));
    }
}

/// Whether the tokens of `a` from `start` on stand for exactly `total` bytes, each token within
/// the bytes.
pub fn tokens_fit(a: &[u8], start: usize, total: usize) -> (ok: bool)
    requires
        start <= a@.len(),
    ensures
        ok == exists|end: int| tokens_end(a@.subrange(start as int, a@.len() as int), 0, total as int, end),
{
    let ghost s = a@.subrange(start as int, a@.len() as int);
    let alen = a.len();
    let room = alen - start;
    let mut at: usize = 0;
    let mut remaining: usize = total;
    while remaining > 0
        invariant
            start <= a@.len(),
            s == a@.subrange(start as int, a@.len() as int),
            room == s.len(),
            room + start == a@.len(),
            alen == a@.len(),
            at <= room,
            (exists|end: int| tokens_end(s, 0, total as int, end)) == (exists|end: int| tokens_end(s, at as int, remaining as int, end)),
        decreases remaining,
    {
        if at >= room {
            assert forall|end: int| !tokens_end(s, at as int, remaining as int, end) by {}
            return false;
        }
        let token = a[start + at];
        assert(token == s[at as int]);
        proof { lemma_count_positive(token); }
        let kind = token / 64;
        let count: usize = if kind == 0 { (token % 64) as usize + 1 } else if kind == 1 { (token % 32) as usize + 3 } else { (token % 64) as usize + 1 };
        let width: usize = if kind == 0 { 0 } else if kind == 1 { (count + 1) / 2 } else { count };
        if count > remaining || width + 1 > room - at {
            assert forall|end: int| !tokens_end(s, at as int, remaining as int, end) by {}
            return false;
        }
        proof {
            let (a0, r0, a1, r1) = (at as int, remaining as int, at + 1 + width, remaining - count);
            if exists|end: int| tokens_end(s, a0, r0, end) {
                let e = choose|end: int| tokens_end(s, a0, r0, end);
                assert(tokens_end(s, a1, r1, e));
            }
            if exists|end: int| tokens_end(s, a1, r1, end) {
                let e = choose|end: int| tokens_end(s, a1, r1, end);
                assert(tokens_end(s, a0, r0, e));
            }
        }
        at = at + 1 + width;
        remaining = remaining - count;
    }
    assert(tokens_end(s, at as int, 0, at as int));
    true
}

/// Bytes after the end of a token stream are never read: a stream that ends at `end` stands for
/// the same differences whatever follows it.
pub proof fn lemma_trailing_bytes_ignored(packed: Seq<u8>, extra: Seq<u8>, at: int, remaining: int, end: int)
    requires
        tokens_end(packed, at, remaining, end),
    ensures
        tokens_end(packed + extra, at, remaining, end),
        expand(packed + extra, at, remaining) == expand(packed, at, remaining),
    decreases remaining,
{
    let longer = packed + extra;
    if remaining > 0 {
        let t = packed[at];
        assert(longer[at] == t);
        lemma_count_positive(t);
        let next = at + 1 + token_width(t);
        lemma_trailing_bytes_ignored(packed, extra, next, remaining - token_count(t), end);
        assert forall|i: int| 0 <= i < next implies #[trigger] longer[i] == packed[i] by {}
        assert(token_residuals(longer, at) =~= token_residuals(packed, at));
    }
}

} // verus!
