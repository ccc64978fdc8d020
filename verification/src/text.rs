//! Text helpers shared by the modules: characters in and out of `str` and `String`, and decimal numbers.

use vstd::prelude::*;

verus! {

/// The characters of `s`, one by one.
pub fn chars_of(s: &str) -> (chars: Vec<char>)
    ensures
        chars@ == s@,
{
    let mut chars: Vec<char> = Vec::new();
    for c in it: s.chars()
        invariant
            chars@ == it.seq().take(it.index() as int),
            it.seq() == s@,
    {
        chars.push(c);
    }
    chars
}

/// A `String` holding exactly `chars`.
#[verifier::external_body]
pub fn string_of(chars: &[char]) -> (s: String)
    ensures
        s@ == chars@,
{
    chars.iter().collect()
}

} // verus!

verus! {

/// The character of decimal digit `d`.
pub open spec fn digit(d: int) -> char {
    (48 + d) as char
}

/// `n` written in decimal.
pub open spec fn decimal(n: nat) -> Seq<char>
    decreases n,
{
    if n < 10 {
        seq![digit(n as int)]
    } else {
        decimal(n / 10).push(digit((n % 10) as int))
    }
}

/// `n` written in decimal, with a minus sign when it is negative.
pub open spec fn signed_decimal(n: int) -> Seq<char> {
    if n < 0 {
        seq!['-'] + decimal((-n) as nat)
    } else {
        decimal(n as nat)
    }
}

/// The character of digit `d`.
pub fn digit_char(d: u64) -> (c: char)
    requires
        d < 10,
    ensures
        c == digit(d as int),
{
    let byte: u8 = 48 + d as u8;
    byte as char
}

/// Appends `n` in decimal to `out`.
pub fn push_decimal(n: u64, out: &mut Vec<char>)
    ensures
        final(out)@ == old(out)@ + decimal(n as nat),
    decreases n,
{
    if n >= 10 {
        push_decimal(n / 10, out);
    }
    out.push(digit_char(n % 10));
    proof {
        assert(old(out)@ + decimal(n as nat) =~= final(out)@) by {
            if n >= 10 {
                assert(decimal(n as nat) == decimal((n / 10) as nat).push(digit((n % 10) as int)));
            }
        }
    }
}

/// `n` in decimal.
pub fn decimal_text(n: u64) -> (s: String)
    ensures
        s@ == decimal(n as nat),
{
    let mut out: Vec<char> = Vec::new();
    push_decimal(n, &mut out);
    assert(out@ =~= decimal(n as nat));
    string_of(out.as_slice())
}

/// Euclidean quotient and remainder of `a` by a positive `b`, as spec `/` and `%` define them.
pub fn div_rem_euclid(a: i64, b: i64) -> (res: (i64, i64))
    requires
        b > 0,
    ensures
        res.0 == a as int / b as int,
        res.1 == a as int % b as int,
{
    if a >= 0 {
        let (ua, ub) = (a as u64, b as u64);
        let (q, r) = (ua / ub, ua % ub);
        assert(q <= ua) by (nonlinear_arith)
            requires
                q == ua / ub,
                ub > 0,
        ;
        (q as i64, r as i64)
    } else {
        // a = -(n + 1): the floor goes one further down than the truncated quotient of n.
        let n = (-(a + 1)) as u64;
        let ub = b as u64;
        let (q, r) = (n / ub, n % ub);
        assert(q <= n) by (nonlinear_arith)
            requires
                q == n / ub,
                ub > 0,
        ;
        let quotient = -(q as i64) - 1;
        let remainder = (ub - 1 - r) as i64;
        proof {
            let (ai, bi) = (a as int, b as int);
            assert(n == q * ub + r) by (nonlinear_arith)
                requires
                    q == n / ub,
                    r == n % ub,
                    ub > 0,
            ;
            assert(ai == quotient * bi + remainder) by (nonlinear_arith)
                requires
                    ai == -(n + 1),
                    n == q * bi + r,
                    quotient == -q - 1,
                    remainder == bi - 1 - r,
            ;
            assert(0 <= remainder < bi);
            vstd::arithmetic::div_mod::lemma_fundamental_div_mod_converse(ai, bi, quotient as int, remainder as int);
        }
        (quotient, remainder)
    }
}

} // verus!

verus! {

/// The characters of `s` from `from` up to `to`.
pub fn slice_chars(s: &[char], from: usize, to: usize) -> (part: Vec<char>)
    requires
        from <= to <= s@.len(),
    ensures
        part@ == s@.subrange(from as int, to as int),
{
    let mut part: Vec<char> = Vec::new();
    let mut i: usize = from;
    while i < to
        invariant
            from <= i <= to <= s@.len(),
            part@ == s@.subrange(from as int, i as int),
        decreases to - i,
    {
        part.push(s[i]);
        i = i + 1;
    }
    part
}

/// Whether `a` and `b` hold the same characters.
pub fn same_chars(a: &[char], b: &[char]) -> (same: bool)
    ensures
        same == (a@ == b@),
{
    if a.len() != b.len() {
        return false;
    }
    let mut i: usize = 0;
    while i < a.len()
        invariant
            a@.len() == b@.len(),
            0 <= i <= a@.len(),
            forall|j: int| 0 <= j < i ==> a@[j] == b@[j],
        decreases a@.len() - i,
    {
        if a[i] != b[i] {
            return false;
        }
        i = i + 1;
    }
    assert(a@ =~= b@);
    true
}

/// Whether `s` begins with `prefix`.
pub open spec fn starts_with(s: Seq<char>, prefix: Seq<char>) -> bool {
    prefix.len() <= s.len() && s.take(prefix.len() as int) == prefix
}

/// Whether `s` begins with `prefix`.
pub fn has_prefix(s: &[char], prefix: &[char]) -> (found: bool)
    ensures
        found == starts_with(s@, prefix@),
{
    if prefix.len() > s.len() {
        return false;
    }
    let mut i: usize = 0;
    while i < prefix.len()
        invariant
            prefix@.len() <= s@.len(),
            0 <= i <= prefix@.len(),
            forall|j: int| 0 <= j < i ==> s@[j] == prefix@[j],
        decreases prefix@.len() - i,
    {
        if s[i] != prefix[i] {
            assert(s@.take(prefix@.len() as int)[i as int] != prefix@[i as int]);
            return false;
        }
        i = i + 1;
    }
    assert(s@.take(prefix@.len() as int) =~= prefix@);
    true
}

/// Whether `c` occurs in `s`.
pub fn has_char(s: &[char], c: char) -> (found: bool)
    ensures
        found == s@.contains(c),
{
    let mut i: usize = 0;
    while i < s.len()
        invariant
            0 <= i <= s@.len(),
            forall|j: int| 0 <= j < i ==> s@[j] != c,
        decreases s@.len() - i,
    {
        if s[i] == c {
            assert(s@[i as int] == c);
            return true;
        }
        i = i + 1;
    }
    false
}

} // verus!

verus! {

// ---- folding: case and accents do not count

/// A letter folded to lowercase ASCII the way names are matched: case and accents do not count.
pub open spec fn fold(c: char) -> char {
    if c == 'á' || c == 'à' || c == 'â' || c == 'ã' || c == 'Á' || c == 'À' || c == 'Â' || c == 'Ã' {
        'a'
    } else if c == 'é' || c == 'ê' || c == 'É' || c == 'Ê' {
        'e'
    } else if c == 'í' || c == 'Í' {
        'i'
    } else if c == 'ó' || c == 'ô' || c == 'õ' || c == 'Ó' || c == 'Ô' || c == 'Õ' {
        'o'
    } else if c == 'ú' || c == 'ü' || c == 'Ú' || c == 'Ü' {
        'u'
    } else if c == 'ç' || c == 'Ç' {
        'c'
    } else {
        ascii_lower(c)
    }
}

/// Whether `c` is the plain lowercase letter `p` written another way or not: `p` itself, its
/// capital, or (for the letters Portuguese accents) `p` with one of its accents, small or capital.
pub open spec fn letter_form(c: char, p: char) -> bool {
    ||| 'a' <= p <= 'z' && (c == p || c as u32 + 32 == p as u32)
    ||| p == 'a' && (c == 'á' || c == 'à' || c == 'â' || c == 'ã' || c == 'Á' || c == 'À' || c == 'Â' || c == 'Ã')
    ||| p == 'e' && (c == 'é' || c == 'ê' || c == 'É' || c == 'Ê')
    ||| p == 'i' && (c == 'í' || c == 'Í')
    ||| p == 'o' && (c == 'ó' || c == 'ô' || c == 'õ' || c == 'Ó' || c == 'Ô' || c == 'Õ')
    ||| p == 'u' && (c == 'ú' || c == 'ü' || c == 'Ú' || c == 'Ü')
    ||| p == 'c' && (c == 'ç' || c == 'Ç')
}

/// Folding takes case and accents off a letter: every way of writing a plain letter folds to
/// that plain lowercase letter.
pub proof fn lemma_fold_letter(c: char, p: char)
    requires
        letter_form(c, p),
    ensures
        fold(c) == p,
{
    if 'a' <= p <= 'z' && c as u32 + 32 == p as u32 {
        assert('A' <= c <= 'Z');
        assert(((c as u32) + 32) as char == p);
    }
}

/// What `char::to_ascii_lowercase` gives: `A`..`Z` become `a`..`z`, anything else stays.
pub open spec fn ascii_lower(c: char) -> char {
    if 'A' <= c <= 'Z' {
        ((c as u32) + 32) as char
    } else {
        c
    }
}

pub open spec fn is_ascii_lowercase(c: char) -> bool {
    'a' <= c <= 'z'
}

pub open spec fn folded(s: Seq<char>) -> Seq<char> {
    s.map_values(|c: char| fold(c))
}

pub fn ascii_lower_char(c: char) -> (lower: char)
    ensures
        lower == ascii_lower(c),
{
    if 'A' <= c && c <= 'Z' {
        let byte: u8 = c as u8 + 32;
        byte as char
    } else {
        c
    }
}

pub fn fold_char(c: char) -> (f: char)
    ensures
        f == fold(c),
{
    match c {
        'á' | 'à' | 'â' | 'ã' | 'Á' | 'À' | 'Â' | 'Ã' => 'a',
        'é' | 'ê' | 'É' | 'Ê' => 'e',
        'í' | 'Í' => 'i',
        'ó' | 'ô' | 'õ' | 'Ó' | 'Ô' | 'Õ' => 'o',
        'ú' | 'ü' | 'Ú' | 'Ü' => 'u',
        'ç' | 'Ç' => 'c',
        other => ascii_lower_char(other),
    }
}

pub fn fold_all(s: &[char]) -> (f: Vec<char>)
    ensures
        f@ == folded(s@),
{
    let mut f: Vec<char> = Vec::new();
    let mut i: usize = 0;
    while i < s.len()
        invariant
            0 <= i <= s@.len(),
            f@ == folded(s@.take(i as int)),
        decreases s@.len() - i,
    {
        f.push(fold_char(s[i]));
        assert(f@ =~= folded(s@.take(i + 1)));
        i = i + 1;
    }
    assert(s@.take(i as int) =~= s@);
    f
}

// ---- substrings

/// Whether `part` occurs in `s` starting at `at`.
pub open spec fn occurs_at(s: Seq<char>, part: Seq<char>, at: int) -> bool {
    0 <= at && at + part.len() <= s.len() && s.subrange(at, at + part.len()) == part
}

/// Whether `part` occurs somewhere in `s`.
pub open spec fn contains_seq(s: Seq<char>, part: Seq<char>) -> bool {
    exists|at: int| occurs_at(s, part, at)
}

pub fn occurs_at_exec(s: &[char], part: &[char], at: usize) -> (found: bool)
    ensures
        found == occurs_at(s@, part@, at as int),
{
    if at > s.len() || part.len() > s.len() - at {
        return false;
    }
    let end: usize = at + part.len();
    let mut k: usize = at;
    while k < end
        invariant
            end == at + part@.len(),
            end <= s@.len(),
            at <= k <= end,
            forall|j: int| 0 <= j < k - at ==> s@[at + j] == part@[j],
        decreases end - k,
    {
        if s[k] != part[k - at] {
            assert(s@.subrange(at as int, at + part@.len())[k - at] != part@[k - at]);
            return false;
        }
        k = k + 1;
    }
    assert(s@.subrange(at as int, at + part@.len()) =~= part@);
    true
}

/// Whether `part` occurs somewhere in `s`.
pub fn contains_chars(s: &[char], part: &[char]) -> (found: bool)
    ensures
        found == contains_seq(s@, part@),
{
    let mut at: usize = 0;
    while at < s.len()
        invariant
            0 <= at <= s@.len(),
            forall|j: int| 0 <= j < at ==> !occurs_at(s@, part@, j),
        decreases s@.len() + 1 - at,
    {
        if occurs_at_exec(s, part, at) {
            return true;
        }
        at = at + 1;
    }
    if occurs_at_exec(s, part, at) {
        return true;
    }
    assert forall|j: int| !occurs_at(s@, part@, j) by {
        if 0 <= j && j <= at {
        }
    }
    false
}

// ---- lexicographic order

/// The order of `String`'s ordering on the characters: -1, 0 or 1.
pub open spec fn seq_order(a: Seq<char>, b: Seq<char>) -> int
    decreases a.len(),
{
    if a.len() == 0 {
        if b.len() == 0 { 0 } else { -1 }
    } else if b.len() == 0 {
        1
    } else if a[0] < b[0] {
        -1
    } else if a[0] > b[0] {
        1
    } else {
        seq_order(a.drop_first(), b.drop_first())
    }
}

pub proof fn lemma_order_antisymmetric(a: Seq<char>, b: Seq<char>)
    ensures
        seq_order(a, b) == -seq_order(b, a),
        -1 <= seq_order(a, b) <= 1,
    decreases a.len(),
{
    if a.len() > 0 && b.len() > 0 && a[0] == b[0] {
        lemma_order_antisymmetric(a.drop_first(), b.drop_first());
    }
}

pub proof fn lemma_order_equal(a: Seq<char>, b: Seq<char>)
    ensures
        (seq_order(a, b) == 0) == (a == b),
    decreases a.len(),
{
    if a.len() > 0 && b.len() > 0 {
        if a[0] == b[0] {
            lemma_order_equal(a.drop_first(), b.drop_first());
            if a.drop_first() == b.drop_first() {
                assert(a =~= seq![a[0]] + a.drop_first());
                assert(b =~= seq![b[0]] + b.drop_first());
            }
            if a == b {
                assert(a.drop_first() =~= b.drop_first());
            }
        }
    } else if a.len() == 0 && b.len() == 0 {
        assert(a =~= b);
    }
}

pub proof fn lemma_order_transitive(a: Seq<char>, b: Seq<char>, c: Seq<char>)
    requires
        seq_order(a, b) < 0,
        seq_order(b, c) < 0,
    ensures
        seq_order(a, c) < 0,
    decreases a.len(),
{
    if a.len() > 0 && b.len() > 0 && c.len() > 0 && a[0] == b[0] && b[0] == c[0] {
        lemma_order_transitive(a.drop_first(), b.drop_first(), c.drop_first());
    }
}

/// `seq_order` of two runs of characters.
pub fn compare_chars(a: &[char], b: &[char]) -> (order: i8)
    ensures
        order as int == seq_order(a@, b@),
{
    let mut i: usize = 0;
    assert(a@.skip(0) =~= a@);
    assert(b@.skip(0) =~= b@);
    while i < a.len() && i < b.len()
        invariant
            0 <= i <= a@.len(),
            i <= b@.len(),
            seq_order(a@, b@) == seq_order(a@.skip(i as int), b@.skip(i as int)),
        decreases a@.len() - i,
    {
        let (x, y) = (a[i], b[i]);
        assert(a@.skip(i as int)[0] == a@[i as int]);
        assert(b@.skip(i as int)[0] == b@[i as int]);
        if x < y {
            return -1;
        }
        if x > y {
            return 1;
        }
        assert(a@.skip(i as int).drop_first() =~= a@.skip(i + 1));
        assert(b@.skip(i as int).drop_first() =~= b@.skip(i + 1));
        i = i + 1;
    }
    if i < a.len() {
        1
    } else if i < b.len() {
        -1
    } else {
        0
    }
}

// ---- white space

/// Whether `c` is white space in Unicode's sense (`char::is_whitespace`): the characters with the
/// White_Space property, tab to carriage return, space, next line, no-break space, the Ogham space
/// mark, the spaces from en quad to hair space, the line and paragraph separators, the narrow
/// no-break and medium mathematical spaces, and the ideographic space.
pub open spec fn is_whitespace(c: char) -> bool {
    let v = c as u32;
    (0x9 <= v && v <= 0xD) || v == 0x20 || v == 0x85 || v == 0xA0 || v == 0x1680 || (0x2000 <= v && v <= 0x200A)
        || v == 0x2028 || v == 0x2029 || v == 0x202F || v == 0x205F || v == 0x3000
}

/// Whether `c` is white space (Unicode's White_Space property, as `char::is_whitespace` has it).
pub fn whitespace(c: char) -> (white: bool)
    ensures
        white == is_whitespace(c),
{
    let v = c as u32;
    (0x9 <= v && v <= 0xD) || v == 0x20 || v == 0x85 || v == 0xA0 || v == 0x1680 || (0x2000 <= v && v <= 0x200A)
        || v == 0x2028 || v == 0x2029 || v == 0x202F || v == 0x205F || v == 0x3000
}

/// How many white-space characters `s` starts with.
pub open spec fn leading_white(s: Seq<char>) -> int
    decreases s.len(),
{
    if s.len() > 0 && is_whitespace(s[0]) {
        1 + leading_white(s.drop_first())
    } else {
        0
    }
}

/// How many white-space characters `s` ends with.
pub open spec fn trailing_white(s: Seq<char>) -> int
    decreases s.len(),
{
    if s.len() > 0 && is_whitespace(s.last()) {
        1 + trailing_white(s.drop_last())
    } else {
        0
    }
}

/// `s` without white space at its start.
pub open spec fn trim_start(s: Seq<char>) -> Seq<char> {
    s.skip(leading_white(s))
}

/// `s` without white space at either end, as `str::trim` gives it.
pub open spec fn trim(s: Seq<char>) -> Seq<char> {
    let start = trim_start(s);
    start.take(start.len() - trailing_white(start))
}

proof fn lemma_leading_white(s: Seq<char>, i: int)
    requires
        0 <= i <= s.len(),
        forall|j: int| 0 <= j < i ==> is_whitespace(#[trigger] s[j]),
        i == s.len() || !is_whitespace(s[i]),
    ensures
        leading_white(s) == i,
    decreases i,
{
    if i > 0 {
        assert forall|j: int| 0 <= j < i - 1 implies is_whitespace(#[trigger] s.drop_first()[j]) by {
            assert(s.drop_first()[j] == s[j + 1]);
        }
        lemma_leading_white(s.drop_first(), i - 1);
    }
}

proof fn lemma_trailing_white(s: Seq<char>, k: int)
    requires
        0 <= k <= s.len(),
        forall|j: int| s.len() - k <= j < s.len() ==> is_whitespace(#[trigger] s[j]),
        k == s.len() || !is_whitespace(s[s.len() - k - 1]),
    ensures
        trailing_white(s) == k,
    decreases k,
{
    if k > 0 {
        assert forall|j: int| s.drop_last().len() - (k - 1) <= j < s.drop_last().len() implies is_whitespace(#[trigger] s.drop_last()[j]) by {
            assert(s.drop_last()[j] == s[j]);
        }
        lemma_trailing_white(s.drop_last(), k - 1);
    }
}

/// `s` without white space at its start.
pub fn trim_start_chars(s: &[char]) -> (t: Vec<char>)
    ensures
        t@ == trim_start(s@),
{
    let mut i: usize = 0;
    while i < s.len() && whitespace(s[i])
        invariant
            0 <= i <= s@.len(),
            forall|j: int| 0 <= j < i ==> is_whitespace(#[trigger] s@[j]),
        decreases s@.len() - i,
    {
        i = i + 1;
    }
    proof {
        lemma_leading_white(s@, i as int);
    }
    let t = slice_chars(s, i, s.len());
    assert(t@ =~= trim_start(s@));
    t
}

/// `s` without white space at either end.
pub fn trim_chars(s: &[char]) -> (t: Vec<char>)
    ensures
        t@ == trim(s@),
{
    let start = trim_start_chars(s);
    let mut k: usize = 0;
    while k < start.len() && whitespace(start[start.len() - k - 1])
        invariant
            0 <= k <= start@.len(),
            forall|j: int| start@.len() - k <= j < start@.len() ==> is_whitespace(#[trigger] start@[j]),
        decreases start@.len() - k,
    {
        k = k + 1;
    }
    proof {
        lemma_trailing_white(start@, k as int);
    }
    let t = slice_chars(start.as_slice(), 0, start.len() - k);
    assert(t@ =~= trim(s@));
    t
}

} // verus!

verus! {

// ---- the size of text in UTF-8

/// How many bytes `c` takes in UTF-8.
pub open spec fn char_bytes(c: char) -> nat {
    if (c as u32) < 0x80 {
        1
    } else if (c as u32) < 0x800 {
        2
    } else if (c as u32) < 0x10000 {
        3
    } else {
        4
    }
}

/// How many bytes `s` takes in UTF-8.
pub open spec fn byte_len(s: Seq<char>) -> nat
    decreases s.len(),
{
    if s.len() == 0 {
        0
    } else {
        byte_len(s.drop_last()) + char_bytes(s.last())
    }
}

pub proof fn lemma_byte_len_concat(a: Seq<char>, b: Seq<char>)
    ensures
        byte_len(a + b) == byte_len(a) + byte_len(b),
    decreases b.len(),
{
    if b.len() > 0 {
        lemma_byte_len_concat(a, b.drop_last());
        assert((a + b).drop_last() =~= a + b.drop_last());
    } else {
        assert(a + b =~= a);
    }
}

/// No character takes more than four bytes.
pub proof fn lemma_byte_len_bound(s: Seq<char>)
    ensures
        byte_len(s) <= 4 * s.len(),
    decreases s.len(),
{
    if s.len() > 0 {
        lemma_byte_len_bound(s.drop_last());
    }
}

/// A prefix takes no more bytes than the whole.
pub proof fn lemma_byte_len_prefix(s: Seq<char>, i: int)
    requires
        0 <= i <= s.len(),
    ensures
        byte_len(s.take(i)) <= byte_len(s),
{
    lemma_byte_len_concat(s.take(i), s.skip(i));
    assert(s.take(i) + s.skip(i) =~= s);
}

/// The number of characters of `s` from `k` on that start within the first `b` bytes: the
/// character position of byte offset `b` (the one before it when `b` falls inside a character).
pub open spec fn chars_from(s: Seq<char>, b: int, k: int) -> int
    decreases s.len() - k,
{
    if k < 0 || k >= s.len() || byte_len(s.take(k + 1)) > b {
        k
    } else {
        chars_from(s, b, k + 1)
    }
}

/// The character position of byte offset `b` in `s`.
pub open spec fn char_at_byte(s: Seq<char>, b: int) -> int {
    chars_from(s, b, 0)
}

/// The byte offset of character position `k` in `s`.
pub open spec fn byte_at_char(s: Seq<char>, k: int) -> int {
    byte_len(s.take(k)) as int
}

/// Whether `b` is a byte offset where a character of `s` starts, or the end.
pub open spec fn on_boundary(s: Seq<char>, b: int) -> bool {
    byte_at_char(s, char_at_byte(s, b)) == b
}

/// Each character more takes at least one byte more.
pub proof fn lemma_byte_at_char_grows(s: Seq<char>, j: int, k: int)
    requires
        0 <= j < k <= s.len(),
    ensures
        byte_at_char(s, j) < byte_at_char(s, k),
    decreases k - j,
{
    assert(s.take(k).drop_last() =~= s.take(k - 1));
    if j < k - 1 {
        lemma_byte_at_char_grows(s, j, k - 1);
    }
}

proof fn lemma_chars_from_reaches(s: Seq<char>, k: int, j: int)
    requires
        0 <= j <= k <= s.len(),
    ensures
        chars_from(s, byte_at_char(s, k), j) == k,
    decreases k - j,
{
    if j < k {
        if j + 1 < k {
            lemma_byte_at_char_grows(s, j + 1, k);
        }
        lemma_chars_from_reaches(s, k, j + 1);
    } else if k < s.len() {
        lemma_byte_at_char_grows(s, k, k + 1);
    }
}

/// The byte offset where character `k` starts reads back as character `k`, and is a boundary.
pub proof fn lemma_char_at_byte_of(s: Seq<char>, k: int)
    requires
        0 <= k <= s.len(),
    ensures
        char_at_byte(s, byte_at_char(s, k)) == k,
        on_boundary(s, byte_at_char(s, k)),
{
    lemma_chars_from_reaches(s, k, 0);
}

proof fn lemma_chars_from_range(s: Seq<char>, b: int, k: int)
    requires
        0 <= k <= s.len(),
    ensures
        k <= chars_from(s, b, k) <= s.len(),
        b >= byte_len(s) ==> chars_from(s, b, k) == s.len(),
    decreases s.len() - k,
{
    if k < s.len() {
        lemma_byte_len_prefix(s, k + 1);
        if byte_len(s.take(k + 1)) <= b {
            lemma_chars_from_range(s, b, k + 1);
        }
    }
}

/// A byte offset reads as a character position within the text; from the end on, as the end.
pub proof fn lemma_char_at_byte_range(s: Seq<char>, b: int)
    ensures
        0 <= char_at_byte(s, b) <= s.len(),
        b >= byte_len(s) ==> char_at_byte(s, b) == s.len(),
{
    lemma_chars_from_range(s, b, 0);
}

/// Byte offsets and character positions keep their order.
pub proof fn lemma_byte_at_char_order(s: Seq<char>, j: int, k: int)
    requires
        0 <= j <= s.len(),
        0 <= k <= s.len(),
    ensures
        j < k <==> byte_at_char(s, j) < byte_at_char(s, k),
        j == k <==> byte_at_char(s, j) == byte_at_char(s, k),
{
    if j < k {
        lemma_byte_at_char_grows(s, j, k);
    } else if k < j {
        lemma_byte_at_char_grows(s, k, j);
    }
}

/// The byte offset of character position `k` of `s`.
pub fn byte_offset(s: &[char], k: usize) -> (b: usize)
    requires
        k <= s@.len(),
        byte_len(s@) <= usize::MAX,
    ensures
        b == byte_at_char(s@, k as int),
        b <= byte_len(s@),
{
    let mut b: usize = 0;
    let mut i: usize = 0;
    assert(s@.take(0) =~= Seq::<char>::empty());
    while i < k
        invariant
            i <= k <= s@.len(),
            byte_len(s@) <= usize::MAX,
            b == byte_len(s@.take(i as int)),
        decreases k - i,
    {
        assert(s@.take(i + 1).drop_last() =~= s@.take(i as int));
        proof { lemma_byte_len_prefix(s@, i + 1); }
        b = b + char_len(s[i]);
        i = i + 1;
    }
    proof { lemma_byte_len_prefix(s@, k as int); }
    b
}

/// The character position of byte offset `b` in `s` (the one before it inside a character).
pub fn char_offset(s: &[char], b: usize) -> (k: usize)
    ensures
        k == char_at_byte(s@, b as int),
        k <= s@.len(),
{
    let mut k: usize = 0;
    let mut used: usize = 0;
    assert(s@.take(0) =~= Seq::<char>::empty());
    while k < s.len()
        invariant
            k <= s@.len(),
            used == byte_len(s@.take(k as int)),
            used <= b,
            char_at_byte(s@, b as int) == chars_from(s@, b as int, k as int),
        decreases s@.len() - k,
    {
        assert(s@.take(k + 1).drop_last() =~= s@.take(k as int));
        let width = char_len(s[k]);
        if b - used < width {
            return k;
        }
        used = used + width;
        k = k + 1;
    }
    k
}

/// Bytes `c` takes in UTF-8 (`char::len_utf8`).
pub fn char_len(c: char) -> (n: usize)
    ensures
        n == char_bytes(c),
{
    let code = c as u32;
    if code < 0x80 {
        1
    } else if code < 0x800 {
        2
    } else if code < 0x10000 {
        3
    } else {
        4
    }
}

/// The longest start of `s` that takes at most `capacity` bytes: text cut to fit, at a character boundary.
pub open spec fn fit(s: Seq<char>, capacity: nat) -> Seq<char>
    decreases s.len(),
{
    if byte_len(s) <= capacity {
        s
    } else {
        fit(s.drop_last(), capacity)
    }
}

pub proof fn lemma_fit(s: Seq<char>, capacity: nat)
    ensures
        byte_len(fit(s, capacity)) <= capacity,
        fit(s, capacity).len() <= s.len(),
        fit(s, capacity) == s.take(fit(s, capacity).len() as int),
    decreases s.len(),
{
    if byte_len(s) > capacity {
        lemma_fit(s.drop_last(), capacity);
        assert(s.drop_last().take(fit(s, capacity).len() as int) =~= s.take(fit(s, capacity).len() as int));
    } else {
        assert(s.take(s.len() as int) =~= s);
    }
}

/// How many bytes the characters of `s` take.
pub fn bytes_of(s: &[char]) -> (n: usize)
    requires
        byte_len(s@) <= usize::MAX,
    ensures
        n == byte_len(s@),
{
    let mut n: usize = 0;
    let mut i: usize = 0;
    while i < s.len()
        invariant
            0 <= i <= s@.len(),
            n == byte_len(s@.take(i as int)),
            byte_len(s@) <= usize::MAX,
        decreases s@.len() - i,
    {
        assert(s@.take(i + 1).drop_last() =~= s@.take(i as int));
        proof {
            lemma_byte_len_prefix(s@, i + 1);
        }
        n = n + char_len(s[i]);
        i = i + 1;
    }
    assert(s@.take(i as int) =~= s@);
    n
}

/// `s` cut to fit `capacity` bytes, at a character boundary.
pub fn fit_chars(s: &[char], capacity: usize) -> (part: Vec<char>)
    ensures
        part@ == fit(s@, capacity as nat),
{
    // The longest prefix that fits: count forward until the next character would not.
    let mut n: usize = 0;
    let mut i: usize = 0;
    while i < s.len() && char_len(s[i]) <= capacity - n
        invariant
            0 <= i <= s@.len(),
            n == byte_len(s@.take(i as int)),
            n <= capacity,
        decreases s@.len() - i,
    {
        assert(s@.take(i + 1).drop_last() =~= s@.take(i as int));
        n = n + char_len(s[i]);
        i = i + 1;
    }
    proof {
        if i < s@.len() {
            assert(s@.take(i + 1).drop_last() =~= s@.take(i as int));
            assert(s@.take(i + 1).last() == s@[i as int]);
        }
        lemma_fit_at(s@, capacity as nat, i as int);
    }
    slice_chars(s, 0, i)
}

/// The fitting prefix is the one found by counting forward.
proof fn lemma_fit_at(s: Seq<char>, capacity: nat, i: int)
    requires
        0 <= i <= s.len(),
        byte_len(s.take(i)) <= capacity,
        i < s.len() ==> byte_len(s.take(i + 1)) > capacity,
    ensures
        fit(s, capacity) == s.subrange(0, i),
    decreases s.len(),
{
    if i == s.len() {
        assert(s.take(i) =~= s);
        assert(s.subrange(0, i) =~= s);
    } else {
        // The whole does not fit: it is longer than a prefix that does not.
        lemma_byte_len_prefix(s, i + 1);
        assert(byte_len(s) > capacity);
        let shorter = s.drop_last();
        assert(shorter.take(i) =~= s.take(i));
        if i + 1 <= shorter.len() {
            assert(shorter.take(i + 1) =~= s.take(i + 1));
        }
        lemma_fit_at(shorter, capacity, i);
        assert(shorter.subrange(0, i) =~= s.subrange(0, i));
    }
}

} // verus!
