//! UTF-8 byte offsets over text whose contents are modelled as `Seq<char>`.
//!
//! A cursor addresses text by byte offset (as `str` does), while Verus sees a
//! string as its sequence of chars. The spec functions here relate the two:
//! `byte_offset_of(s, k)` is where char `k` of `s` starts.

use vstd::prelude::*;

verus! {

/// Number of bytes in the UTF-8 encoding of `c`.
pub open spec fn char_utf8_len(c: char) -> nat {
    let v = c as u32;
    if v < 0x80 {
        1
    } else if v < 0x800 {
        2
    } else if v < 0x10000 {
        3
    } else {
        4
    }
}

/// Number of bytes in the UTF-8 encoding of the chars `s`.
pub open spec fn utf8_len(s: Seq<char>) -> nat
    decreases s.len(),
{
    if s.len() == 0 {
        0
    } else {
        utf8_len(s.drop_last()) + char_utf8_len(s.last())
    }
}

/// Byte offset at which char `k` of `s` starts (`utf8_len(s)` for `k == s.len()`).
pub open spec fn byte_offset_of(s: Seq<char>, k: int) -> nat {
    utf8_len(s.take(k))
}

/// `off` is the byte offset of a char start in `s`, or the end of `s`.
pub open spec fn is_char_boundary(s: Seq<char>, off: int) -> bool {
    exists|k: int| 0 <= k <= s.len() && #[trigger] byte_offset_of(s, k) == off
}

/// The char index whose byte offset is `off` (meaningful when `is_char_boundary(s, off)`).
pub open spec fn char_index_at(s: Seq<char>, off: int) -> int {
    choose|k: int| 0 <= k <= s.len() && #[trigger] byte_offset_of(s, k) == off
}

/// Largest char index `k <= from` whose byte offset is at most `off` (0 when there is none).
pub open spec fn floor_index_from(s: Seq<char>, off: int, from: int) -> int
    decreases from,
{
    if from <= 0 {
        0
    } else if byte_offset_of(s, from) <= off {
        from
    } else {
        floor_index_from(s, off, from - 1)
    }
}

/// Index of the last char boundary at or before byte `off` (the end of `s` when `off` lies past it).
pub open spec fn floor_char_index(s: Seq<char>, off: int) -> int {
    floor_index_from(s, off, s.len() as int)
}

pub proof fn lemma_byte_offset_step(s: Seq<char>, k: int)
    requires
        0 <= k < s.len(),
    ensures
        byte_offset_of(s, k + 1) == byte_offset_of(s, k) + char_utf8_len(s[k]),
{
    assert(s.take(k + 1).drop_last() =~= s.take(k));
    assert(s.take(k + 1).last() == s[k]);
}

pub proof fn lemma_byte_offset_zero(s: Seq<char>)
    ensures
        byte_offset_of(s, 0) == 0,
{
    assert(s.take(0).len() == 0);
}

pub proof fn lemma_byte_offset_end(s: Seq<char>)
    ensures
        byte_offset_of(s, s.len() as int) == utf8_len(s),
{
    assert(s.take(s.len() as int) =~= s);
}

/// Byte offsets of char starts strictly increase.
pub proof fn lemma_byte_offset_strict_mono(s: Seq<char>, j: int, k: int)
    requires
        0 <= j < k <= s.len(),
    ensures
        byte_offset_of(s, j) < byte_offset_of(s, k),
    decreases k - j,
{
    lemma_byte_offset_step(s, k - 1);
    if j < k - 1 {
        lemma_byte_offset_strict_mono(s, j, k - 1);
    }
}

pub proof fn lemma_byte_offset_mono(s: Seq<char>, j: int, k: int)
    requires
        0 <= j <= k <= s.len(),
    ensures
        byte_offset_of(s, j) <= byte_offset_of(s, k),
{
    if j < k {
        lemma_byte_offset_strict_mono(s, j, k);
    }
}

pub proof fn lemma_byte_offset_le_len(s: Seq<char>, k: int)
    requires
        0 <= k <= s.len(),
    ensures
        byte_offset_of(s, k) <= utf8_len(s),
{
    lemma_byte_offset_mono(s, k, s.len() as int);
    lemma_byte_offset_end(s);
}

/// The char index of a boundary is the unique index with that offset.
pub proof fn lemma_char_index_at(s: Seq<char>, k: int)
    requires
        0 <= k <= s.len(),
    ensures
        is_char_boundary(s, byte_offset_of(s, k) as int),
        char_index_at(s, byte_offset_of(s, k) as int) == k,
{
    let off = byte_offset_of(s, k) as int;
    assert(0 <= k <= s.len() && byte_offset_of(s, k) == off);
    let k2 = char_index_at(s, off);
    if k2 < k {
        lemma_byte_offset_strict_mono(s, k2, k);
    } else if k < k2 {
        lemma_byte_offset_strict_mono(s, k, k2);
    }
}

pub proof fn lemma_boundary_index(s: Seq<char>, off: int)
    requires
        is_char_boundary(s, off),
    ensures
        0 <= char_index_at(s, off) <= s.len(),
        byte_offset_of(s, char_index_at(s, off)) == off,
{
}

pub proof fn lemma_utf8_len_concat(a: Seq<char>, b: Seq<char>)
    ensures
        utf8_len(a + b) == utf8_len(a) + utf8_len(b),
    decreases b.len(),
{
    if b.len() == 0 {
        assert(a + b =~= a);
    } else {
        assert((a + b).drop_last() =~= a + b.drop_last());
        assert((a + b).last() == b.last());
        lemma_utf8_len_concat(a, b.drop_last());
    }
}

pub proof fn lemma_floor_index_from(s: Seq<char>, off: int, from: int)
    requires
        0 <= from <= s.len(),
        off >= 0,
    ensures
        0 <= floor_index_from(s, off, from) <= from,
        byte_offset_of(s, floor_index_from(s, off, from)) <= off,
        forall|j: int|
            floor_index_from(s, off, from) < j <= from ==> byte_offset_of(s, j) > off,
    decreases from,
{
    lemma_byte_offset_zero(s);
    if from > 0 && byte_offset_of(s, from) > off {
        lemma_floor_index_from(s, off, from - 1);
    }
}

/// `floor_char_index` is the last char start at or before `off`.
pub proof fn lemma_floor_char_index(s: Seq<char>, off: int)
    requires
        off >= 0,
    ensures
        0 <= floor_char_index(s, off) <= s.len(),
        byte_offset_of(s, floor_char_index(s, off)) <= off,
        forall|j: int| floor_char_index(s, off) < j <= s.len() ==> byte_offset_of(s, j) > off,
{
    lemma_floor_index_from(s, off, s.len() as int);
}

/// Inserting a char at index `k` keeps the offsets before it and shifts the next one.
pub proof fn lemma_insert_offsets(s: Seq<char>, k: int, ch: char)
    requires
        0 <= k <= s.len(),
    ensures
        byte_offset_of(s.insert(k, ch), k) == byte_offset_of(s, k),
        byte_offset_of(s.insert(k, ch), k + 1) == byte_offset_of(s, k) + char_utf8_len(ch),
        utf8_len(s.insert(k, ch)) == utf8_len(s) + char_utf8_len(ch),
{
    let t = s.insert(k, ch);
    assert(t.take(k) =~= s.take(k));
    assert(t.take(k + 1).drop_last() =~= s.take(k));
    assert(t =~= s.take(k).push(ch) + s.skip(k));
    assert(s =~= s.take(k) + s.skip(k));
    lemma_utf8_len_concat(s.take(k).push(ch), s.skip(k));
    lemma_utf8_len_concat(s.take(k), s.skip(k));
    assert(s.take(k).push(ch).drop_last() =~= s.take(k));
}

/// Number of bytes in the UTF-8 encoding of `c` (as `char::len_utf8`).
pub fn char_len_utf8(c: char) -> (n: usize)
    ensures
        n == char_utf8_len(c),
{
    let v = c as u32;
    if v < 0x80 {
        1
    } else if v < 0x800 {
        2
    } else if v < 0x10000 {
        3
    } else {
        4
    }
}

/// `str::len`: the number of bytes in the UTF-8 encoding of `s`. The bytes of a
/// string lie in one allocation, which never exceeds `isize::MAX` bytes.
#[verifier::external_body]
pub(crate) fn text_byte_len(s: &str) -> (n: usize)
    ensures
        n == utf8_len(s@),
        n <= isize::MAX,
{
    s.len()
}

/// `String::insert`: inserts `ch` at byte position `idx`, which must be a char
/// boundary (`insert` panics otherwise). The result is the char sequence with
/// `ch` placed at the corresponding char index.
#[verifier::external_body]
pub(crate) fn string_insert(s: &mut String, idx: usize, ch: char)
    requires
        is_char_boundary(old(s)@, idx as int),
    ensures
        final(s)@ == old(s)@.insert(char_index_at(old(s)@, idx as int), ch),
{
    s.insert(idx, ch)
}

/// `String::remove`: removes and returns the char that starts at byte position
/// `idx`, which must be a char boundary before the end (`remove` panics otherwise).
#[verifier::external_body]
pub(crate) fn string_remove(s: &mut String, idx: usize) -> (c: char)
    requires
        is_char_boundary(old(s)@, idx as int),
        char_index_at(old(s)@, idx as int) < old(s)@.len(),
    ensures
        c == old(s)@[char_index_at(old(s)@, idx as int)],
        final(s)@ == old(s)@.remove(char_index_at(old(s)@, idx as int)),
{
    s.remove(idx)
}

/// `String::split_off`: splits at byte position `at`, which must be a char
/// boundary (`split_off` panics otherwise); `s` keeps the chars before it and
/// the chars from it on are returned.
#[verifier::external_body]
pub(crate) fn string_split_off(s: &mut String, at: usize) -> (tail: String)
    requires
        is_char_boundary(old(s)@, at as int),
    ensures
        final(s)@ == old(s)@.take(char_index_at(old(s)@, at as int)),
        tail@ == old(s)@.skip(char_index_at(old(s)@, at as int)),
{
    s.split_off(at)
}

/// The chars of `s`, in order.
pub fn text_chars(s: &str) -> (v: Vec<char>)
    ensures
        v@ == s@,
{
    let mut v: Vec<char> = Vec::new();
    for c in it: s.chars()
        invariant
            it.seq() == s@,
            v@ == it.seq().take(it.index() as int),
    {
        v.push(c);
    }
    assert(v@ =~= s@);
    v
}

/// Byte offsets of every char of `chars` followed by the end offset; fails
/// only if the encoding would not fit in `usize`.
pub fn char_offsets(chars: &Vec<char>) -> (offs: Vec<usize>)
    requires
        utf8_len(chars@) <= usize::MAX,
    ensures
        offs@.len() == chars@.len() + 1,
        forall|k: int| 0 <= k <= chars@.len() ==> offs@[k] == byte_offset_of(chars@, k),
{
    let mut offs: Vec<usize> = Vec::new();
    let mut pos: usize = 0;
    let mut i: usize = 0;
    proof {
        lemma_byte_offset_zero(chars@);
    }
    while i < chars.len()
        invariant
            i <= chars@.len(),
            utf8_len(chars@) <= usize::MAX,
            pos == byte_offset_of(chars@, i as int),
            offs@.len() == i,
            forall|k: int| 0 <= k < i ==> offs@[k] == byte_offset_of(chars@, k),
        decreases chars@.len() - i,
    {
        offs.push(pos);
        proof {
            lemma_byte_offset_step(chars@, i as int);
            lemma_byte_offset_le_len(chars@, i as int + 1);
        }
        let w = char_len_utf8(chars[i]);
        pos = pos + w;
        i = i + 1;
    }
    offs.push(pos);
    offs
}

/// Char index at byte offset `off` of `s`, or `None` when `off` is not a char boundary.
pub fn char_index_of_offset(s: &str, off: usize) -> (r: Option<usize>)
    ensures
        r is Some <==> is_char_boundary(s@, off as int),
        r matches Some(k) ==> k <= s@.len() && byte_offset_of(s@, k as int) == off
            && k == char_index_at(s@, off as int),
{
    let _n = text_byte_len(s);
    let chars = text_chars(s);
    let offs = char_offsets(&chars);
    let mut k: usize = 0;
    while k < offs.len()
        invariant
            chars@ == s@,
            offs@.len() == chars@.len() + 1,
            forall|j: int| 0 <= j <= chars@.len() ==> offs@[j] == byte_offset_of(chars@, j),
            k <= offs@.len(),
            forall|j: int| 0 <= j < k ==> byte_offset_of(s@, j) != off,
        decreases offs@.len() - k,
    {
        if offs[k] == off {
            proof {
                lemma_char_index_at(s@, k as int);
            }
            return Some(k);
        }
        k = k + 1;
    }
    None
}

/// Byte offset of the last char boundary at or before `off` (the end of `s`
/// when `off` lies past it), with its char index.
pub fn floor_boundary(s: &str, off: usize) -> (r: (usize, usize))
    ensures
        r.0 == floor_char_index(s@, off as int),
        r.1 == byte_offset_of(s@, r.0 as int),
{
    let _n = text_byte_len(s);
    let chars = text_chars(s);
    let offs = char_offsets(&chars);
    let mut k: usize = 0;
    proof {
        lemma_floor_char_index(s@, off as int);
        lemma_byte_offset_zero(s@);
    }
    while k < offs.len() - 1 && offs[k + 1] <= off
        invariant
            chars@ == s@,
            offs@.len() == chars@.len() + 1,
            forall|j: int| 0 <= j <= chars@.len() ==> offs@[j] == byte_offset_of(chars@, j),
            k < offs@.len(),
            k <= floor_char_index(s@, off as int),
            0 <= floor_char_index(s@, off as int) <= s@.len(),
            byte_offset_of(s@, floor_char_index(s@, off as int)) <= off,
            forall|j: int| floor_char_index(s@, off as int) < j <= s@.len() ==> byte_offset_of(s@, j) > off,
        decreases offs@.len() - k,
    {
        k = k + 1;
    }
    proof {
        let f = floor_char_index(s@, off as int);
        if k < f {
            lemma_byte_offset_mono(s@, k + 1, f);
        }
    }
    (k, offs[k])
}

} // verus!
