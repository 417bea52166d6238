//! Byte strings: white space, trimming, prefixes and suffixes.
//!
//! Text travels as UTF-8. White space is every character that Unicode lists
//! as such, recognised by the bytes of its UTF-8 form; a byte that belongs to
//! no such form is never white space, whether or not it is part of valid text.

use vstd::prelude::*;
use vstd::slice::slice_subrange;

verus! {

/// White space among single bytes: the space and the control bytes from
/// horizontal tab (9) to carriage return (13).
pub open spec fn is_space(b: u8) -> bool {
    b == 0x20 || (0x09 <= b && b <= 0x0D)
}

/// The two bytes are the UTF-8 form of a white-space character: next line
/// (U+0085) or no-break space (U+00A0).
pub open spec fn is_space_pair(a: u8, b: u8) -> bool {
    a == 0xC2 && (b == 0x85 || b == 0xA0)
}

/// The three bytes are the UTF-8 form of a white-space character: U+1680,
/// U+2000 to U+200A, U+2028, U+2029, U+202F, U+205F or U+3000.
pub open spec fn is_space_triple(a: u8, b: u8, c: u8) -> bool {
    ||| (a == 0xE1 && b == 0x9A && c == 0x80)
    ||| (a == 0xE2 && b == 0x80 && ((0x80 <= c && c <= 0x8A) || c == 0xA8 || c == 0xA9 || c == 0xAF))
    ||| (a == 0xE2 && b == 0x81 && c == 0x9F)
    ||| (a == 0xE3 && b == 0x80 && c == 0x80)
}

/// The number of bytes of the white-space character that stands in `s` at
/// index `i`: 1, 2 or 3, and 0 where none stands there.
pub open spec fn space_width(s: Seq<u8>, i: int) -> int {
    if i < 0 || i >= s.len() {
        0
    } else if is_space(s[i]) {
        1
    } else if i + 2 <= s.len() && is_space_pair(s[i], s[i + 1]) {
        2
    } else if i + 3 <= s.len() && is_space_triple(s[i], s[i + 1], s[i + 2]) {
        3
    } else {
        0
    }
}

/// The number of bytes of the white-space character that ends in `s` just
/// before index `n`, and 0 where none ends there.
pub open spec fn space_width_before(s: Seq<u8>, n: int) -> int {
    if n > s.len() {
        0
    } else if space_width(s, n - 1) == 1 {
        1
    } else if space_width(s, n - 2) == 2 {
        2
    } else if space_width(s, n - 3) == 3 {
        3
    } else {
        0
    }
}

/// `s` without its trailing white space.
pub open spec fn trim_end(s: Seq<u8>) -> Seq<u8>
    decreases s.len(),
{
    let w = space_width_before(s, s.len() as int);
    if 0 < w <= s.len() {
        trim_end(s.take(s.len() - w))
    } else {
        s
    }
}

/// `s` without its leading white space.
pub open spec fn trim_start(s: Seq<u8>) -> Seq<u8>
    decreases s.len(),
{
    let w = space_width(s, 0);
    if 0 < w <= s.len() {
        trim_start(s.skip(w))
    } else {
        s
    }
}

/// `s` without the white space on either side.
pub open spec fn trim(s: Seq<u8>) -> Seq<u8> {
    trim_end(trim_start(s))
}

/// `s` without its trailing zero bytes.
pub open spec fn trim_nul_end(s: Seq<u8>) -> Seq<u8>
    decreases s.len(),
{
    if s.len() > 0 && s.last() == 0u8 {
        trim_nul_end(s.drop_last())
    } else {
        s
    }
}

/// `s` is white space from its first byte to its last.
pub open spec fn is_blank(s: Seq<u8>) -> bool
    decreases s.len(),
{
    let w = space_width(s, 0);
    s.len() == 0 || (0 < w <= s.len() && is_blank(s.skip(w)))
}

/// `s` begins with `p`.
pub open spec fn starts_with(s: Seq<u8>, p: Seq<u8>) -> bool {
    p.len() <= s.len() && s.subrange(0, p.len() as int) == p
}

/// `s` ends with `p`.
pub open spec fn ends_with(s: Seq<u8>, p: Seq<u8>) -> bool {
    p.len() <= s.len() && s.subrange(s.len() - p.len(), s.len() as int) == p
}

/// Trimming the end keeps a prefix, and one that does not end in white
/// space.
pub proof fn lemma_trim_end_shape(s: Seq<u8>)
    ensures
        trim_end(s).len() <= s.len(),
        trim_end(s) == s.take(trim_end(s).len() as int),
        space_width_before(trim_end(s), trim_end(s).len() as int) == 0,
    decreases s.len(),
{
    let w = space_width_before(s, s.len() as int);
    if 0 < w <= s.len() {
        let t = s.take(s.len() - w);
        lemma_trim_end_shape(t);
        assert(t.take(trim_end(t).len() as int) =~= s.take(trim_end(t).len() as int));
    } else {
        assert(s.take(s.len() as int) =~= s);
    }
}

/// Trimming the start keeps a suffix, and one that does not begin with white
/// space.
pub proof fn lemma_trim_start_shape(s: Seq<u8>)
    ensures
        trim_start(s).len() <= s.len(),
        trim_start(s) == s.skip(s.len() - trim_start(s).len()),
        space_width(trim_start(s), 0) == 0,
    decreases s.len(),
{
    let w = space_width(s, 0);
    if 0 < w <= s.len() {
        let t = s.skip(w);
        lemma_trim_start_shape(t);
        let k = t.len() - trim_start(t).len();
        assert(t.skip(k) =~= s.skip(k + w));
    } else {
        assert(s.skip(0) =~= s);
    }
}

/// What ends just before `n` does not depend on what follows `n`.
pub proof fn lemma_width_before_of_prefix(s: Seq<u8>, n: int)
    requires
        0 <= n <= s.len(),
    ensures
        space_width_before(s.take(n), n) == space_width_before(s, n),
{
    let cur = s.take(n);
    if n >= 1 {
        assert(cur[n - 1] == s[n - 1]);
    }
    if n >= 2 {
        assert(cur[n - 2] == s[n - 2]);
    }
    if n >= 3 {
        assert(cur[n - 3] == s[n - 3]);
    }
}

/// What stands at `k` does not depend on what precedes `k`.
pub proof fn lemma_width_of_suffix(s: Seq<u8>, k: int)
    requires
        0 <= k <= s.len(),
    ensures
        space_width(s.skip(k), 0) == space_width(s, k),
{
    let cur = s.skip(k);
    if k < s.len() {
        assert(cur[0] == s[k]);
    }
    if k + 1 < s.len() {
        assert(cur[1] == s[k + 1]);
    }
    if k + 2 < s.len() {
        assert(cur[2] == s[k + 2]);
    }
}

/// White space is still white space with one more white-space character
/// behind it.
pub proof fn lemma_blank_append(r: Seq<u8>, c: Seq<u8>)
    requires
        is_blank(r),
        c.len() > 0,
        space_width(c, 0) == c.len(),
    ensures
        is_blank(r + c),
    decreases r.len(),
{
    if r.len() == 0 {
        assert(r + c =~= c);
        assert(c.skip(c.len() as int) =~= Seq::<u8>::empty());
        assert(is_blank(c.skip(c.len() as int)));
    } else {
        let w = space_width(r, 0);
        let all = r + c;
        assert(all[0] == r[0]);
        if w >= 2 {
            assert(all[1] == r[1]);
        }
        if w >= 3 {
            assert(all[2] == r[2]);
        }
        assert(space_width(all, 0) == w);
        assert(all.skip(w) =~= r.skip(w) + c);
        lemma_blank_append(r.skip(w), c);
    }
}

/// What trimming the end cuts off is white space and nothing else.
pub proof fn lemma_trim_end_cuts_white_space(s: Seq<u8>)
    ensures
        trim_end(s).len() <= s.len(),
        is_blank(s.skip(trim_end(s).len() as int)),
    decreases s.len(),
{
    let w = space_width_before(s, s.len() as int);
    if 0 < w <= s.len() {
        let t = s.take(s.len() - w);
        lemma_trim_end_cuts_white_space(t);
        let n = trim_end(t).len() as int;
        let c = s.skip(s.len() - w);
        lemma_width_of_suffix(s, s.len() - w);
        lemma_blank_append(t.skip(n), c);
        assert(t.skip(n) + c =~= s.skip(n));
    } else {
        assert(s.skip(s.len() as int) =~= Seq::<u8>::empty());
    }
}

/// What trimming the start cuts off is white space and nothing else.
pub proof fn lemma_trim_start_cuts_white_space(s: Seq<u8>)
    ensures
        trim_start(s).len() <= s.len(),
        is_blank(s.take(s.len() - trim_start(s).len())),
    decreases s.len(),
{
    let w = space_width(s, 0);
    if 0 < w <= s.len() {
        let t = s.skip(w);
        lemma_trim_start_cuts_white_space(t);
        let k = t.len() - trim_start(t).len();
        let cut = s.take(w + k);
        assert(cut[0] == s[0]);
        if w >= 2 {
            assert(cut[1] == s[1]);
        }
        if w >= 3 {
            assert(cut[2] == s[2]);
        }
        assert(space_width(cut, 0) == w);
        assert(cut.skip(w) =~= t.take(k));
    } else {
        assert(s.take(0) =~= Seq::<u8>::empty());
    }
}

/// A string that does not end in white space is its own trimmed form.
pub proof fn lemma_trim_end_fixed(s: Seq<u8>)
    requires
        space_width_before(s, s.len() as int) == 0,
    ensures
        trim_end(s) == s,
{
}

/// Trimming twice changes nothing more.
pub proof fn lemma_trim_idempotent(s: Seq<u8>)
    ensures
        trim(trim(s)) == trim(s),
{
    let a = trim_start(s);
    let b = trim_end(a);
    lemma_trim_start_shape(s);
    lemma_trim_end_shape(a);
    // b is a prefix of a, and a does not begin with white space
    let w = space_width(b, 0);
    if w > 0 {
        assert(b[0] == a[0]);
        if w >= 2 {
            assert(b[1] == a[1]);
        }
        if w >= 3 {
            assert(b[2] == a[2]);
        }
        assert(space_width(a, 0) == w);
    }
    assert(trim_start(b) == b);
    lemma_trim_end_fixed(b);
}

/// Text of plain ASCII is trimmed at its end byte by byte: where the last
/// byte is a white-space byte it goes, and where it is another ASCII byte
/// nothing goes.
pub proof fn lemma_trim_end_ascii(s: Seq<u8>)
    requires
        s.len() > 0,
        s.last() < 0x80,
    ensures
        is_space(s.last()) ==> trim_end(s) == trim_end(s.drop_last()),
        !is_space(s.last()) ==> trim_end(s) == s,
{
    if is_space(s.last()) {
        assert(space_width_before(s, s.len() as int) == 1);
        assert(s.take(s.len() - 1) =~= s.drop_last());
    }
}

/// Tells whether a byte is white space.
pub fn is_whitespace(b: u8) -> (r: bool)
    ensures
        r == is_space(b),
{
    b == 0x20 || (0x09 <= b && b <= 0x0D)
}

/// The number of bytes of the white-space character that stands in `s` at
/// index `i`, or 0.
pub fn space_width_at(s: &[u8], i: usize) -> (w: usize)
    ensures
        w == space_width(s@, i as int),
        w <= 3,
        w > 0 ==> i + w <= s@.len(),
{
    if i >= s.len() {
        0
    } else if is_whitespace(s[i]) {
        1
    } else if s.len() - i >= 2 && s[i] == 0xC2 && (s[i + 1] == 0x85 || s[i + 1] == 0xA0) {
        2
    } else if s.len() - i >= 3 && is_wide_space(s[i], s[i + 1], s[i + 2]) {
        3
    } else {
        0
    }
}

/// Tells whether three bytes are the UTF-8 form of a white-space character.
pub fn is_wide_space(a: u8, b: u8, c: u8) -> (r: bool)
    ensures
        r == is_space_triple(a, b, c),
{
    (a == 0xE1 && b == 0x9A && c == 0x80) || (a == 0xE2 && b == 0x80 && ((0x80 <= c && c <= 0x8A)
        || c == 0xA8 || c == 0xA9 || c == 0xAF)) || (a == 0xE2 && b == 0x81 && c == 0x9F) || (a
        == 0xE3 && b == 0x80 && c == 0x80)
}

/// The number of bytes of the white-space character that ends in `s` just
/// before index `n`, or 0.
pub fn space_width_ending_at(s: &[u8], n: usize) -> (w: usize)
    ensures
        w == space_width_before(s@, n as int),
        w <= 3,
        w <= n,
{
    if n > s.len() {
        0
    } else if n >= 1 && space_width_at(s, n - 1) == 1 {
        1
    } else if n >= 2 && space_width_at(s, n - 2) == 2 {
        2
    } else if n >= 3 && space_width_at(s, n - 3) == 3 {
        3
    } else {
        0
    }
}

/// The length of `s` once its trailing white space is gone.
pub fn trim_end_len(s: &[u8]) -> (n: usize)
    ensures
        n <= s@.len(),
        s@.subrange(0, n as int) == trim_end(s@),
{
    let mut n: usize = s.len();
    let mut w: usize = space_width_ending_at(s, n);
    proof {
        assert(s@.take(n as int) =~= s@);
    }
    while w > 0
        invariant
            n <= s@.len(),
            w <= n,
            w == space_width_before(s@, n as int),
            trim_end(s@.take(n as int)) == trim_end(s@),
        decreases n,
    {
        proof {
            lemma_width_before_of_prefix(s@, n as int);
            assert(s@.take(n as int).take(n - w) =~= s@.take(n - w));
        }
        n -= w;
        w = space_width_ending_at(s, n);
    }
    proof {
        lemma_width_before_of_prefix(s@, n as int);
        assert(s@.take(n as int) =~= s@.subrange(0, n as int));
    }
    n
}

/// The number of bytes of white space that `s` begins with.
pub fn trim_start_len(s: &[u8]) -> (k: usize)
    ensures
        k <= s@.len(),
        s@.subrange(k as int, s@.len() as int) == trim_start(s@),
{
    let len: usize = s.len();
    let mut k: usize = 0;
    let mut w: usize = space_width_at(s, k);
    proof {
        assert(s@.skip(0) =~= s@);
    }
    while w > 0
        invariant
            len == s@.len(),
            k + w <= s@.len(),
            w == space_width(s@, k as int),
            trim_start(s@.skip(k as int)) == trim_start(s@),
        decreases s@.len() - k,
    {
        proof {
            lemma_width_of_suffix(s@, k as int);
            assert(s@.skip(k as int).skip(w as int) =~= s@.skip(k + w));
        }
        k += w;
        w = space_width_at(s, k);
    }
    proof {
        lemma_width_of_suffix(s@, k as int);
        assert(s@.skip(k as int) =~= s@.subrange(k as int, s@.len() as int));
    }
    k
}

/// The length of `s` once its trailing zero bytes are gone.
pub fn trim_nul_end_len(s: &[u8]) -> (n: usize)
    ensures
        n <= s@.len(),
        s@.subrange(0, n as int) == trim_nul_end(s@),
{
    let mut n: usize = s.len();
    proof {
        assert(s@.subrange(0, n as int) =~= s@);
    }
    while n > 0 && s[n - 1] == 0u8
        invariant
            n <= s@.len(),
            trim_nul_end(s@.subrange(0, n as int)) == trim_nul_end(s@),
        decreases n,
    {
        proof {
            let cur = s@.subrange(0, n as int);
            assert(cur.last() == s@[n - 1]);
            assert(cur.drop_last() =~= s@.subrange(0, n - 1));
        }
        n -= 1;
    }
    proof {
        let cur = s@.subrange(0, n as int);
        if n > 0 {
            assert(cur.last() == s@[n - 1]);
        }
    }
    n
}

/// The part of `s` between its leading and its trailing white space.
pub fn trim_bytes(s: &[u8]) -> (r: &[u8])
    ensures
        r@ == trim(s@),
{
    let k: usize = trim_start_len(s);
    let rest = slice_subrange(s, k, s.len());
    let n: usize = trim_end_len(rest);
    slice_subrange(rest, 0, n)
}

/// The part of `s` before its trailing white space.
pub fn trim_end_bytes(s: &[u8]) -> (r: &[u8])
    ensures
        r@ == trim_end(s@),
{
    let n: usize = trim_end_len(s);
    slice_subrange(s, 0, n)
}

/// Tells whether two byte strings are equal.
pub fn bytes_equal(a: &[u8], b: &[u8]) -> (r: bool)
    ensures
        r == (a@ == b@),
{
    if a.len() != b.len() {
        return false;
    }
    let mut i: usize = 0;
    while i < a.len()
        invariant
            i <= a@.len(),
            a@.len() == b@.len(),
            forall|j: int| 0 <= j < i ==> a@[j] == b@[j],
        decreases a@.len() - i,
    {
        if a[i] != b[i] {
            return false;
        }
        i += 1;
    }
    proof {
        assert(a@ =~= b@);
    }
    true
}

/// Tells whether `s` begins with `p`.
pub fn has_prefix(s: &[u8], p: &[u8]) -> (r: bool)
    ensures
        r == starts_with(s@, p@),
{
    if p.len() > s.len() {
        return false;
    }
    bytes_equal(slice_subrange(s, 0, p.len()), p)
}

/// Tells whether `s` ends with `p`.
pub fn has_suffix(s: &[u8], p: &[u8]) -> (r: bool)
    ensures
        r == ends_with(s@, p@),
{
    if p.len() > s.len() {
        return false;
    }
    bytes_equal(slice_subrange(s, s.len() - p.len(), s.len()), p)
}

/// A copy of the bytes of `s` from `from` up to `to`.
pub fn copy_range(s: &[u8], from: usize, to: usize) -> (r: Vec<u8>)
    requires
        from <= to <= s@.len(),
    ensures
        r@ == s@.subrange(from as int, to as int),
{
    let mut r: Vec<u8> = Vec::new();
    let mut i: usize = from;
    while i < to
        invariant
            from <= i <= to <= s@.len(),
            r@ == s@.subrange(from as int, i as int),
        decreases to - i,
    {
        r.push(s[i]);
        proof {
            assert(r@ =~= s@.subrange(from as int, i + 1));
        }
        i += 1;
    }
    r
}

} // verus!
