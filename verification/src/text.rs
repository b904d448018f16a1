//! Character-level text utilities, specified over `Seq<char>`.
//!
//! Strings are handled as sequences of Unicode scalar values. Byte lengths
//! and byte offsets (what Rust's `str::len` and slicing use) are given by
//! `utf8_len`.

use vstd::prelude::*;

verus! {

broadcast use vstd::string::group_string_axioms;

// ---------------------------------------------------------------------------
// UTF-8 widths
// ---------------------------------------------------------------------------

/// Number of bytes in the UTF-8 encoding of `c`.
pub open spec fn char_width(c: char) -> nat {
    let u = c as u32;
    if u < 0x80 {
        1
    } else if u < 0x800 {
        2
    } else if u < 0x10000 {
        3
    } else {
        4
    }
}

/// Number of bytes in the UTF-8 encoding of `s`.
pub open spec fn utf8_len(s: Seq<char>) -> nat
    decreases s.len(),
{
    if s.len() == 0 {
        0
    } else {
        utf8_len(s.drop_last()) + char_width(s.last())
    }
}

/// The UTF-8 length of a concatenation is the sum of the lengths.
pub proof fn lemma_utf8_len_concat(a: Seq<char>, b: Seq<char>)
    ensures
        utf8_len(a + b) == utf8_len(a) + utf8_len(b),
    decreases b.len(),
{
    if b.len() == 0 {
        assert(a + b =~= a);
    } else {
        assert((a + b).drop_last() =~= a + b.drop_last());
        lemma_utf8_len_concat(a, b.drop_last());
    }
}

/// Every character takes between one and four bytes.
pub proof fn lemma_utf8_len_bounds(s: Seq<char>)
    ensures
        s.len() <= utf8_len(s) <= 4 * s.len(),
    decreases s.len(),
{
    if s.len() > 0 {
        lemma_utf8_len_bounds(s.drop_last());
    }
}

/// A piece of a sequence is no longer, in bytes, than the sequence.
pub proof fn lemma_utf8_len_subrange(s: Seq<char>, i: int, j: int)
    requires
        0 <= i <= j <= s.len(),
    ensures
        utf8_len(s.subrange(i, j)) <= utf8_len(s),
        utf8_len(s.take(i)) + utf8_len(s.subrange(i, j)) == utf8_len(s.take(j)),
{
    lemma_utf8_len_concat(s.take(i), s.subrange(i, j));
    assert(s.take(i) + s.subrange(i, j) =~= s.take(j));
    lemma_utf8_len_concat(s.take(j), s.skip(j));
    assert(s.take(j) + s.skip(j) =~= s);
}

/// `utf8_len` is the length of vstd's UTF-8 encoding, which is what `str::len` returns.
pub proof fn lemma_utf8_len_encode(s: Seq<char>)
    ensures
        vstd::utf8::encode_utf8(s).len() == utf8_len(s),
    decreases s.len(),
{
    if s.len() > 0 {
        vstd::utf8::char_is_scalar(s[0]);
        lemma_utf8_len_encode(s.drop_first());
        lemma_utf8_len_concat(seq![s[0]], s.drop_first());
        assert(seq![s[0]] + s.drop_first() =~= s);
        assert(seq![s[0]].drop_last() =~= Seq::<char>::empty());
        assert(utf8_len(seq![s[0]].drop_last()) == 0);
        assert(utf8_len(seq![s[0]]) == char_width(s[0]));
        lemma_encode_scalar_len(s[0]);
    }
}

proof fn lemma_encode_scalar_len(c: char)
    ensures
        vstd::utf8::encode_scalar(c as u32).len() == char_width(c),
{
    vstd::utf8::char_is_scalar(c);
}

/// Byte width of one character.
pub fn char_width_exec(c: char) -> (w: usize)
    ensures
        w == char_width(c),
{
    let u = c as u32;
    if u < 0x80 {
        1
    } else if u < 0x800 {
        2
    } else if u < 0x10000 {
        3
    } else {
        4
    }
}

/// UTF-8 length of `v[lo..hi]`, computed without overflow.
pub fn utf8_len_range(v: &Vec<char>, lo: usize, hi: usize) -> (n: u128)
    requires
        lo <= hi <= v@.len(),
    ensures
        n == utf8_len(v@.subrange(lo as int, hi as int)),
        n <= 4 * (hi - lo),
{
    let mut n: u128 = 0;
    let mut i = lo;
    while i < hi
        invariant
            lo <= i <= hi <= v@.len(),
            n == utf8_len(v@.subrange(lo as int, i as int)),
            n <= 4 * (i - lo),
        decreases hi - i,
    {
        assert(v@.subrange(lo as int, i + 1).drop_last() =~= v@.subrange(lo as int, i as int));
        n = n + char_width_exec(v[i]) as u128;
        i = i + 1;
    }
    n
}

// ---------------------------------------------------------------------------
// Whitespace and trimming
// ---------------------------------------------------------------------------

/// Unicode `White_Space`, as `char::is_whitespace` decides it.
pub open spec fn is_ws(c: char) -> bool {
    let u = c as u32;
    (0x09 <= u && u <= 0x0d) || u == 0x20 || u == 0x85 || u == 0xa0 || u == 0x1680 || (0x2000
        <= u && u <= 0x200a) || u == 0x2028 || u == 0x2029 || u == 0x202f || u == 0x205f || u
        == 0x3000
}

/// Whether `c` is whitespace.
pub fn is_ws_exec(c: char) -> (b: bool)
    ensures
        b == is_ws(c),
{
    let u = c as u32;
    (0x09 <= u && u <= 0x0d) || u == 0x20 || u == 0x85 || u == 0xa0 || u == 0x1680 || (0x2000
        <= u && u <= 0x200a) || u == 0x2028 || u == 0x2029 || u == 0x202f || u == 0x205f || u
        == 0x3000
}

/// `s` without leading whitespace.
pub open spec fn trim_start(s: Seq<char>) -> Seq<char>
    decreases s.len(),
{
    if s.len() > 0 && is_ws(s[0]) {
        trim_start(s.drop_first())
    } else {
        s
    }
}

/// `s` without trailing whitespace.
pub open spec fn trim_end(s: Seq<char>) -> Seq<char>
    decreases s.len(),
{
    if s.len() > 0 && is_ws(s.last()) {
        trim_end(s.drop_last())
    } else {
        s
    }
}

/// `s` without leading and trailing whitespace (`str::trim`).
pub open spec fn trim(s: Seq<char>) -> Seq<char> {
    trim_end(trim_start(s))
}

/// Bounds of the trimmed part of `v[lo..hi]`.
pub fn trim_range(v: &Vec<char>, lo: usize, hi: usize) -> (r: (usize, usize))
    requires
        lo <= hi <= v@.len(),
    ensures
        lo <= r.0 <= r.1 <= hi,
        v@.subrange(r.0 as int, r.1 as int) == trim(v@.subrange(lo as int, hi as int)),
{
    let mut a = lo;
    while a < hi && is_ws_exec(v[a])
        invariant
            lo <= a <= hi <= v@.len(),
            trim_start(v@.subrange(lo as int, hi as int)) == trim_start(
                v@.subrange(a as int, hi as int),
            ),
        decreases hi - a,
    {
        assert(v@.subrange(a as int, hi as int).drop_first() =~= v@.subrange(a + 1, hi as int));
        a = a + 1;
    }
    let mut b = hi;
    while b > a && is_ws_exec(v[b - 1])
        invariant
            lo <= a <= b <= hi <= v@.len(),
            trim_end(v@.subrange(a as int, hi as int)) == trim_end(
                v@.subrange(a as int, b as int),
            ),
        decreases b - a,
    {
        assert(v@.subrange(a as int, b as int).drop_last() =~= v@.subrange(a as int, b - 1));
        b = b - 1;
    }
    (a, b)
}

/// Trimming yields a piece of the sequence it trims.
pub proof fn lemma_trim_is_piece(s: Seq<char>)
    ensures
        exists|i: int, j: int| 0 <= i <= j <= s.len() && trim(s) == s.subrange(i, j),
{
    let ghost v = s;
    lemma_trim_start_piece(s);
    let i = choose|i: int| 0 <= i <= s.len() && trim_start(s) == s.subrange(i, s.len() as int);
    lemma_trim_end_piece(s.subrange(i, s.len() as int));
    let t = s.subrange(i, s.len() as int);
    let j = choose|j: int| 0 <= j <= t.len() && trim_end(t) == t.subrange(0, j);
    assert(t.subrange(0, j) =~= s.subrange(i, i + j));
}

/// Trimming keeps a text that has a character other than whitespace, and
/// what it keeps starts with such a character.
pub proof fn lemma_trim_keeps_text(s: Seq<char>, q: int)
    requires
        0 <= q < s.len(),
        !is_ws(s[q]),
    ensures
        trim(s).len() > 0,
        !is_ws(trim(s)[0]),
{
    lemma_trim_start_keeps(s, q);
    lemma_trim_end_first(trim_start(s));
}

/// A trimmed text that is not empty starts with a character other than
/// whitespace.
pub proof fn lemma_trim_first(s: Seq<char>)
    requires
        trim(s).len() > 0,
    ensures
        !is_ws(trim(s)[0]),
{
    lemma_trim_start_first(s);
    if trim_start(s).len() > 0 {
        lemma_trim_end_first(trim_start(s));
    } else {
        assert(trim_end(trim_start(s)).len() == 0);
    }
}

proof fn lemma_trim_start_first(s: Seq<char>)
    ensures
        trim_start(s).len() > 0 ==> !is_ws(trim_start(s)[0]),
    decreases s.len(),
{
    if s.len() > 0 && is_ws(s[0]) {
        lemma_trim_start_first(s.drop_first());
    }
}

proof fn lemma_trim_start_keeps(s: Seq<char>, q: int)
    requires
        0 <= q < s.len(),
        !is_ws(s[q]),
    ensures
        trim_start(s).len() > 0,
        !is_ws(trim_start(s)[0]),
    decreases s.len(),
{
    if is_ws(s[0]) {
        assert(s.drop_first()[q - 1] == s[q]);
        lemma_trim_start_keeps(s.drop_first(), q - 1);
    }
}

/// Trimming the end of a text that starts with a character other than
/// whitespace keeps that first character.
proof fn lemma_trim_end_first(s: Seq<char>)
    requires
        s.len() > 0,
        !is_ws(s[0]),
    ensures
        trim_end(s).len() > 0,
        trim_end(s)[0] == s[0],
    decreases s.len(),
{
    if is_ws(s.last()) {
        assert(s.len() > 1);
        assert(s.drop_last()[0] == s[0]);
        lemma_trim_end_first(s.drop_last());
    }
}

proof fn lemma_trim_start_piece(s: Seq<char>)
    ensures
        exists|i: int| 0 <= i <= s.len() && trim_start(s) == s.subrange(i, s.len() as int),
    decreases s.len(),
{
    if s.len() > 0 && is_ws(s[0]) {
        lemma_trim_start_piece(s.drop_first());
        let i = choose|i: int|
            0 <= i <= s.drop_first().len() && trim_start(s.drop_first()) == s.drop_first().subrange(
                i,
                s.drop_first().len() as int,
            );
        assert(s.drop_first().subrange(i, s.drop_first().len() as int) =~= s.subrange(
            i + 1,
            s.len() as int,
        ));
    } else {
        assert(s.subrange(0, s.len() as int) =~= s);
    }
}

proof fn lemma_trim_end_piece(s: Seq<char>)
    ensures
        exists|j: int| 0 <= j <= s.len() && trim_end(s) == s.subrange(0, j),
    decreases s.len(),
{
    if s.len() > 0 && is_ws(s.last()) {
        lemma_trim_end_piece(s.drop_last());
        let j = choose|j: int|
            0 <= j <= s.drop_last().len() && trim_end(s.drop_last()) == s.drop_last().subrange(
                0,
                j,
            );
        assert(s.drop_last().subrange(0, j) =~= s.subrange(0, j));
    } else {
        assert(s.subrange(0, s.len() as int) =~= s);
    }
}

// ---------------------------------------------------------------------------
// Substring search
// ---------------------------------------------------------------------------

/// `p` occurs in `h` at position `i`.
pub open spec fn matches_at(h: Seq<char>, p: Seq<char>, i: int) -> bool {
    0 <= i && i + p.len() <= h.len() && h.subrange(i, i + p.len()) == p
}

/// First position at or after `i` where `p` occurs in `h` (`str::find` on `h[i..]`,
/// counted from the start of `h`).
pub open spec fn find_from(h: Seq<char>, p: Seq<char>, i: nat) -> Option<nat>
    decreases h.len() + 1 - i,
{
    if i + p.len() > h.len() {
        None
    } else if matches_at(h, p, i as int) {
        Some(i)
    } else {
        find_from(h, p, i + 1)
    }
}

/// Last position below `k` where `p` occurs in `h`.
pub open spec fn rfind_below(h: Seq<char>, p: Seq<char>, k: nat) -> Option<nat>
    decreases k,
{
    if k == 0 {
        None
    } else if matches_at(h, p, k - 1) {
        Some((k - 1) as nat)
    } else {
        rfind_below(h, p, (k - 1) as nat)
    }
}

/// Last position where `p` occurs in `h` (`str::rfind`).
pub open spec fn rfind(h: Seq<char>, p: Seq<char>) -> Option<nat> {
    rfind_below(h, p, h.len() + 1)
}

/// `h` contains `p` somewhere (`str::contains`).
pub open spec fn contains_seq(h: Seq<char>, p: Seq<char>) -> bool {
    exists|i: int| matches_at(h, p, i)
}

/// A match reported by `rfind_below` is a real occurrence.
pub proof fn lemma_rfind_matches(h: Seq<char>, p: Seq<char>, k: nat)
    ensures
        rfind_below(h, p, k) matches Some(j) ==> j < k && matches_at(h, p, j as int),
    decreases k,
{
    if k > 0 && !matches_at(h, p, k - 1) {
        lemma_rfind_matches(h, p, (k - 1) as nat);
    }
}

/// A match reported by `find_from` is a real occurrence at or after the start.
pub proof fn lemma_find_from_result(h: Seq<char>, p: Seq<char>, i: nat)
    ensures
        find_from(h, p, i) matches Some(j) ==> i <= j && matches_at(h, p, j as int),
        find_from(h, p, i) matches Some(j) ==> forall|k: int| i <= k < j ==> !matches_at(h, p, k),
    decreases h.len() + 1 - i,
{
    if i + p.len() <= h.len() && !matches_at(h, p, i as int) {
        lemma_find_from_result(h, p, i + 1);
    }
}

/// When `p` occurs at `a`, searching from any `i <= a` finds an occurrence no later than `a`.
pub proof fn lemma_find_from_before(h: Seq<char>, p: Seq<char>, i: nat, a: nat)
    requires
        i <= a,
        matches_at(h, p, a as int),
    ensures
        find_from(h, p, i) matches Some(j) && j <= a,
    decreases a - i,
{
    if !matches_at(h, p, i as int) {
        lemma_find_from_before(h, p, i + 1, a);
    }
}

/// Whether `p` occurs in `h` at position `i`.
pub fn matches_at_exec(h: &Vec<char>, p: &Vec<char>, i: usize) -> (b: bool)
    ensures
        b == matches_at(h@, p@, i as int),
{
    if i > h.len() || p.len() > h.len() - i {
        return false;
    }
    let mut k: usize = 0;
    while k < p.len()
        invariant
            i + p@.len() <= h.len(),
            k <= p@.len(),
            forall|m: int| 0 <= m < k ==> h@[i + m] == p@[m],
        decreases p@.len() - k,
    {
        if h[i + k] != p[k] {
            assert(h@.subrange(i as int, i + p@.len())[k as int] != p@[k as int]);
            return false;
        }
        k = k + 1;
    }
    assert(h@.subrange(i as int, i + p@.len()) =~= p@);
    true
}

/// `find_from` on vectors.
pub fn find_from_exec(h: &Vec<char>, p: &Vec<char>, i: usize) -> (r: Option<usize>)
    ensures
        match r {
            Some(j) => find_from(h@, p@, i as nat) == Some(j as nat) && i <= j && j + p@.len()
                <= h@.len(),
            None => find_from(h@, p@, i as nat) is None,
        },
{
    if p.len() > h.len() || i > h.len() - p.len() {
        return None;
    }
    let last = h.len() - p.len();
    let mut j = i;
    loop
        invariant
            i <= j <= last,
            last + p@.len() == h@.len(),
            find_from(h@, p@, i as nat) == find_from(h@, p@, j as nat),
        decreases last - j,
    {
        if matches_at_exec(h, p, j) {
            return Some(j);
        }
        if j == last {
            assert(find_from(h@, p@, (j + 1) as nat) == None::<nat>);
            return None;
        }
        j = j + 1;
    }
}

/// `rfind` on vectors.
pub fn rfind_exec(h: &Vec<char>, p: &Vec<char>) -> (r: Option<usize>)
    ensures
        match r {
            Some(j) => rfind(h@, p@) == Some(j as nat) && j + p@.len() <= h@.len(),
            None => rfind(h@, p@) is None,
        },
{
    let mut k = h.len();
    // positions above h.len() never match
    assert(!matches_at(h@, p@, h@.len() as int) || p@.len() == 0);
    if p.len() == 0 {
        assert(h@.subrange(h@.len() as int, h@.len() as int) =~= p@);
        return Some(h.len());
    }
    assert(rfind(h@, p@) == rfind_below(h@, p@, h@.len() as nat));
    loop
        invariant
            k <= h@.len(),
            p@.len() > 0,
            rfind(h@, p@) == rfind_below(h@, p@, k as nat),
        decreases k,
    {
        if k == 0 {
            return None;
        }
        if matches_at_exec(h, p, k - 1) {
            return Some(k - 1);
        }
        k = k - 1;
    }
}

/// Whether `h` contains `p`.
pub fn contains_exec(h: &Vec<char>, p: &Vec<char>) -> (b: bool)
    ensures
        b == contains_seq(h@, p@),
{
    if p.len() > h.len() {
        return false;
    }
    let last = h.len() - p.len();
    let mut j: usize = 0;
    loop
        invariant
            j <= last,
            last + p@.len() == h@.len(),
            forall|m: int| 0 <= m < j ==> !matches_at(h@, p@, m),
        decreases last - j,
    {
        if matches_at_exec(h, p, j) {
            return true;
        }
        if j == last {
            return false;
        }
        j = j + 1;
    }
}

// ---------------------------------------------------------------------------
// Conversions between strings and character vectors
// ---------------------------------------------------------------------------

/// Collect the characters of `s` into a vector.
pub fn to_chars(s: &str) -> (v: Vec<char>)
    ensures
        v@ == s@,
{
    let mut v: Vec<char> = Vec::new();
    for c in it: s.chars()
        invariant
            v@ == it.seq().take(it.index() as int),
            it.seq() == s@,
    {
        v.push(c);
    }
    v
}

/// `String::push`: appends one character.
#[verifier::external_body]
fn string_push(s: &mut String, c: char)
    ensures
        final(s)@ == old(s)@.push(c),
{
    s.push(c);
}

/// A string holding the characters `v[lo..hi]`.
pub fn string_from_range(v: &Vec<char>, lo: usize, hi: usize) -> (s: String)
    requires
        lo <= hi <= v@.len(),
    ensures
        s@ == v@.subrange(lo as int, hi as int),
{
    let mut s = String::new();
    let mut i = lo;
    while i < hi
        invariant
            lo <= i <= hi <= v@.len(),
            s@ == v@.subrange(lo as int, i as int),
        decreases hi - i,
    {
        string_push(&mut s, v[i]);
        assert(v@.subrange(lo as int, i + 1) =~= v@.subrange(lo as int, i as int).push(v@[i as int]));
        i = i + 1;
    }
    s
}

/// A string holding the characters of `v`.
pub fn string_from_chars(v: &Vec<char>) -> (s: String)
    ensures
        s@ == v@,
{
    let s = string_from_range(v, 0, v.len());
    assert(v@.subrange(0, v@.len() as int) =~= v@);
    s
}

/// A string holding the characters of `v` followed by those of `w`.
pub fn string_from_two(v: &Vec<char>, w: &Vec<char>) -> (s: String)
    ensures
        s@ == v@ + w@,
{
    let mut s = string_from_chars(v);
    let mut i: usize = 0;
    while i < w.len()
        invariant
            i <= w@.len(),
            s@ == v@ + w@.take(i as int),
        decreases w@.len() - i,
    {
        string_push(&mut s, w[i]);
        assert(w@.take(i + 1) =~= w@.take(i as int).push(w@[i as int]));
        i = i + 1;
    }
    assert(w@.take(w@.len() as int) =~= w@);
    s
}

/// A copy of `v[lo..hi]`.
pub fn copy_range(v: &Vec<char>, lo: usize, hi: usize) -> (r: Vec<char>)
    requires
        lo <= hi <= v@.len(),
    ensures
        r@ == v@.subrange(lo as int, hi as int),
{
    let mut r: Vec<char> = Vec::new();
    let mut i = lo;
    while i < hi
        invariant
            lo <= i <= hi <= v@.len(),
            r@ == v@.subrange(lo as int, i as int),
        decreases hi - i,
    {
        r.push(v[i]);
        assert(v@.subrange(lo as int, i + 1) =~= v@.subrange(lo as int, i as int).push(v@[i as int]));
        i = i + 1;
    }
    r
}

/// Appends `w` to `v`.
pub fn extend_chars(v: &mut Vec<char>, w: &Vec<char>)
    ensures
        final(v)@ == old(v)@ + w@,
{
    let mut i: usize = 0;
    while i < w.len()
        invariant
            i <= w@.len(),
            v@ == old(v)@ + w@.take(i as int),
        decreases w@.len() - i,
    {
        v.push(w[i]);
        assert(w@.take(i + 1) =~= w@.take(i as int).push(w@[i as int]));
        i = i + 1;
    }
    assert(w@.take(w@.len() as int) =~= w@);
}

/// The concatenation of three strings.
pub fn concat3(a: &str, b: &str, c: &str) -> (r: String)
    ensures
        r@ == a@ + b@ + c@,
{
    let mut v = to_chars(a);
    let bv = to_chars(b);
    let cv = to_chars(c);
    extend_chars(&mut v, &bv);
    let r = string_from_two(&v, &cv);
    r
}

/// Whether two strings hold the same characters.
pub fn str_eq(a: &str, b: &str) -> (r: bool)
    ensures
        r == (a@ == b@),
{
    let va = to_chars(a);
    let vb = to_chars(b);
    if va.len() != vb.len() {
        return false;
    }
    let mut i: usize = 0;
    while i < va.len()
        invariant
            va@ == a@,
            vb@ == b@,
            va@.len() == vb@.len(),
            i <= va@.len(),
            forall|k: int| 0 <= k < i ==> va@[k] == vb@[k],
        decreases va@.len() - i,
    {
        if va[i] != vb[i] {
            assert(va@[i as int] != vb@[i as int]);
            return false;
        }
        i = i + 1;
    }
    assert(va@ =~= vb@);
    true
}

} // verus!
