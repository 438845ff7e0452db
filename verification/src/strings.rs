//! Char-level string helpers: whitespace, trimming, ASCII case, and
//! building strings from chars.

use vstd::prelude::*;

use crate::search::{first_index, last_index, lemma_first_index_props, lemma_last_index_props};
use crate::text::text_chars;

verus! {

/// Unicode `White_Space`, the property `char::is_whitespace` tests.
pub open spec fn is_ws(c: char) -> bool {
    let u = c as u32;
    ||| 0x9 <= u <= 0xd
    ||| u == 0x20
    ||| u == 0x85
    ||| u == 0xa0
    ||| u == 0x1680
    ||| 0x2000 <= u <= 0x200a
    ||| u == 0x2028
    ||| u == 0x2029
    ||| u == 0x202f
    ||| u == 0x205f
    ||| u == 0x3000
}

/// Index predicate: char `i` of `s` is not whitespace.
pub open spec fn not_ws_at(s: Seq<char>) -> spec_fn(int) -> bool {
    |i: int| !is_ws(s[i])
}

/// `s` without leading and trailing whitespace.
pub open spec fn trimmed(s: Seq<char>) -> Seq<char> {
    match first_index(s.len() as int, not_ws_at(s)) {
        None => Seq::empty(),
        Some(a) => s.subrange(a, last_index(s.len() as int, not_ws_at(s))->0 + 1),
    }
}

/// `c` with `A..=Z` mapped to `a..=z`.
pub open spec fn ascii_lower(c: char) -> char {
    if 'A' <= c <= 'Z' {
        ((c as u32) + 32) as char
    } else {
        c
    }
}

/// `s` with every ASCII capital made small.
pub open spec fn ascii_lowered(s: Seq<char>) -> Seq<char> {
    Seq::new(s.len(), |i: int| ascii_lower(s[i]))
}

/// The chars of `"grey"`.
pub open spec fn grey() -> Seq<char> {
    seq!['g', 'r', 'e', 'y']
}

/// The chars of `"gray"`.
pub open spec fn gray() -> Seq<char> {
    seq!['g', 'r', 'a', 'y']
}

/// `s` with each `grey`, scanned from the left, replaced by `gray`.
pub open spec fn grey_to_gray(s: Seq<char>) -> Seq<char>
    decreases s.len(),
{
    if s.len() == 0 {
        s
    } else if s.len() >= 4 && s.take(4) == grey() {
        gray() + grey_to_gray(s.skip(4))
    } else {
        seq![s[0]] + grey_to_gray(s.skip(1))
    }
}

/// `char::is_whitespace`.
pub fn char_is_ws(c: char) -> (r: bool)
    ensures
        r == is_ws(c),
{
    let u = c as u32;
    (0x9 <= u && u <= 0xd) || u == 0x20 || u == 0x85 || u == 0xa0 || u == 0x1680 || (0x2000 <= u
        && u <= 0x200a) || u == 0x2028 || u == 0x2029 || u == 0x202f || u == 0x205f || u == 0x3000
}

/// The chars of `v` without leading and trailing whitespace.
pub fn trim_chars(v: &Vec<char>) -> (r: Vec<char>)
    ensures
        r@ == trimmed(v@),
{
    let ghost p = not_ws_at(v@);
    let n = v.len();
    let mut a: usize = 0;
    while a < n && char_is_ws(v[a])
        invariant
            n == v@.len(),
            a <= n,
            p == not_ws_at(v@),
            first_index(a as int, p) is None,
        decreases n - a,
    {
        assert(!p(a as int));
        a = a + 1;
    }
    proof {
        lemma_first_index_props(n as int, p);
        lemma_last_index_props(n as int, p);
    }
    let mut r: Vec<char> = Vec::new();
    if a == n {
        assert(first_index(n as int, p) is None);
        return r;
    }
    assert(p(a as int));
    assert(first_index(a + 1, p) == Some(a as int));
    proof {
        crate::search::lemma_first_index_extends(a + 1, n as int, p);
    }
    let mut b: usize = n;
    while b > a + 1 && char_is_ws(v[b - 1])
        invariant
            n == v@.len(),
            a < b <= n,
            p == not_ws_at(v@),
            p(a as int),
            forall|k: int| b <= k < n ==> !#[trigger] p(k),
        decreases b,
    {
        assert(!p(b - 1));
        b = b - 1;
    }
    let ghost last = last_index(n as int, p);
    proof {
        if b == a + 1 && !p(b - 1) {
            assert(false);
        }
        assert(p(b - 1));
        lemma_last_above(n as int, p, b - 1);
    }
    let mut i: usize = a;
    while i < b
        invariant
            a <= i <= b <= n,
            n == v@.len(),
            r@ == v@.subrange(a as int, i as int),
        decreases b - i,
    {
        r.push(v[i]);
        assert(r@ =~= v@.subrange(a as int, i + 1));
        i = i + 1;
    }
    r
}

proof fn lemma_last_above(n: int, p: spec_fn(int) -> bool, j: int)
    requires
        0 <= j < n,
        p(j),
        forall|k: int| j < k < n ==> !#[trigger] p(k),
    ensures
        last_index(n, p) == Some(j),
    decreases n,
{
    if n - 1 > j {
        lemma_last_above(n - 1, p, j);
    }
}

/// `char::to_ascii_lowercase`.
pub fn char_ascii_lower(c: char) -> (r: char)
    ensures
        r == ascii_lower(c),
{
    if 'A' <= c && c <= 'Z' {
        let u = (c as u32) + 32;
        assert(0x61 <= u <= 0x7a);
        char_from_ascii(u as u8)
    } else {
        c
    }
}

/// The ASCII char with code `b`.
fn char_from_ascii(b: u8) -> (c: char)
    requires
        b < 128,
    ensures
        c as u32 == b as u32,
{
    b as char
}

/// The chars of `v` with ASCII capitals made small.
pub fn lower_chars(v: &Vec<char>) -> (r: Vec<char>)
    ensures
        r@ == ascii_lowered(v@),
{
    let mut r: Vec<char> = Vec::new();
    let mut i: usize = 0;
    while i < v.len()
        invariant
            i <= v@.len(),
            r@ == ascii_lowered(v@.take(i as int)),
        decreases v@.len() - i,
    {
        let c = char_ascii_lower(v[i]);
        r.push(c);
        assert(r@ =~= ascii_lowered(v@.take(i + 1)));
        i = i + 1;
    }
    assert(v@.take(i as int) =~= v@);
    r
}

/// The chars of `v` with each `grey` replaced by `gray`.
pub fn grey_to_gray_chars(v: &Vec<char>) -> (r: Vec<char>)
    ensures
        r@ == grey_to_gray(v@),
{
    let mut r: Vec<char> = Vec::new();
    let n = v.len();
    let mut i: usize = 0;
    assert(v@.skip(0) =~= v@);
    while i < n
        invariant
            n == v@.len(),
            i <= n,
            r@ + grey_to_gray(v@.skip(i as int)) == grey_to_gray(v@),
        decreases n - i,
    {
        let ghost rest = v@.skip(i as int);
        if n - i >= 4 && v[i] == 'g' && v[i + 1] == 'r' && v[i + 2] == 'e' && v[i + 3] == 'y' {
            assert(rest.take(4) =~= grey());
            assert(rest.skip(4) =~= v@.skip(i + 4));
            r.push('g');
            r.push('r');
            r.push('a');
            r.push('y');
            assert(r@ + grey_to_gray(v@.skip(i + 4)) =~= r@.subrange(0, r@.len() - 4) + grey_to_gray(rest));
            i = i + 4;
        } else {
            if n - i >= 4 {
                assert(rest.take(4) != grey()) by {
                    if rest.take(4) == grey() {
                        assert(rest.take(4)[0] == v@[i as int]);
                        assert(rest.take(4)[1] == v@[i + 1]);
                        assert(rest.take(4)[2] == v@[i + 2]);
                        assert(rest.take(4)[3] == v@[i + 3]);
                    }
                }
            }
            assert(rest.skip(1) =~= v@.skip(i + 1));
            assert(rest[0] == v@[i as int]);
            r.push(v[i]);
            assert(r@ + grey_to_gray(v@.skip(i + 1)) =~= r@.subrange(0, r@.len() - 1) + grey_to_gray(rest));
            i = i + 1;
        }
    }
    assert(v@.skip(i as int) =~= Seq::<char>::empty());
    assert(r@ + Seq::<char>::empty() =~= r@);
    r
}

/// `String::push`: appends `c`.
#[verifier::external_body]
pub(crate) fn string_push(s: &mut String, c: char)
    ensures
        final(s)@ == old(s)@.push(c),
{
    s.push(c)
}

/// A string of the chars of `v`.
pub fn string_of_chars(v: &Vec<char>) -> (s: String)
    ensures
        s@ == v@,
{
    let mut s = String::new();
    let mut i: usize = 0;
    while i < v.len()
        invariant
            i <= v@.len(),
            s@ == v@.take(i as int),
        decreases v@.len() - i,
    {
        string_push(&mut s, v[i]);
        assert(s@ =~= v@.take(i + 1));
        i = i + 1;
    }
    assert(v@.take(i as int) =~= v@);
    s
}

/// Whether the chars of `v` spell `lit`.
pub fn chars_are(v: &Vec<char>, lit: &str) -> (r: bool)
    ensures
        r == (v@ == lit@),
{
    let w = text_chars(lit);
    if v.len() != w.len() {
        return false;
    }
    let mut i: usize = 0;
    while i < v.len()
        invariant
            i <= v@.len(),
            v@.len() == w@.len(),
            w@ == lit@,
            forall|k: int| 0 <= k < i ==> v@[k] == w@[k],
        decreases v@.len() - i,
    {
        if v[i] != w[i] {
            return false;
        }
        i = i + 1;
    }
    assert(v@ =~= w@);
    true
}

/// `a` followed by `b`.
pub fn concat_str(a: &str, b: &str) -> (s: String)
    ensures
        s@ == a@ + b@,
{
    let mut s = String::new();
    s.append(a);
    s.append(b);
    s
}

/// `parts` joined with `sep` between neighbours.
pub open spec fn joined(parts: Seq<Seq<char>>, sep: Seq<char>) -> Seq<char>
    decreases parts.len(),
{
    if parts.len() == 0 {
        Seq::empty()
    } else if parts.len() == 1 {
        parts[0]
    } else {
        joined(parts.drop_last(), sep) + sep + parts.last()
    }
}

/// `s` with each `_` made `-`.
pub open spec fn dashed(s: Seq<char>) -> Seq<char> {
    Seq::new(s.len(), |i: int| if s[i] == '_' { '-' } else { s[i] })
}

/// The whitespace-separated words of `s`, in order.
pub open spec fn ws_words(s: Seq<char>) -> Seq<Seq<char>>
    decreases s.len(),
{
    if s.len() == 0 {
        Seq::empty()
    } else {
        let w = ws_words(s.drop_last());
        let c = s.last();
        if is_ws(c) {
            w
        } else if s.len() >= 2 && !is_ws(s[s.len() - 2]) {
            w.update(w.len() - 1, w.last().push(c))
        } else {
            w.push(seq![c])
        }
    }
}

proof fn lemma_ws_words_shape(s: Seq<char>)
    ensures
        forall|i: int| 0 <= i < ws_words(s).len() ==> #[trigger] ws_words(s)[i].len() > 0,
        s.len() > 0 && !is_ws(s.last()) ==> ws_words(s).len() > 0,
    decreases s.len(),
{
    if s.len() > 0 {
        lemma_ws_words_shape(s.drop_last());
        let w = ws_words(s.drop_last());
        let c = s.last();
        if !is_ws(c) && s.len() >= 2 && !is_ws(s[s.len() - 2]) {
            assert(s.drop_last().last() == s[s.len() - 2]);
            assert(w.len() > 0);
            let u = w.update(w.len() - 1, w.last().push(c));
            assert forall|i: int| 0 <= i < u.len() implies #[trigger] u[i].len() > 0 by {
                if i < w.len() - 1 {
                    assert(u[i] == w[i]);
                }
            }
        } else if !is_ws(c) {
            let u = w.push(seq![c]);
            assert forall|i: int| 0 <= i < u.len() implies #[trigger] u[i].len() > 0 by {
                if i < w.len() {
                    assert(u[i] == w[i]);
                }
            }
        }
    }
}

proof fn lemma_joined_nonempty(parts: Seq<Seq<char>>, sep: Seq<char>)
    requires
        forall|i: int| 0 <= i < parts.len() ==> #[trigger] parts[i].len() > 0,
    ensures
        parts.len() > 0 <==> joined(parts, sep).len() > 0,
    decreases parts.len(),
{
    if parts.len() > 1 {
        lemma_joined_nonempty(parts.drop_last(), sep);
        assert(parts.last() == parts[parts.len() - 1]);
    } else if parts.len() == 1 {
        assert(parts[0].len() > 0);
    }
}

proof fn lemma_joined_extend_last(parts: Seq<Seq<char>>, sep: Seq<char>, c: char)
    requires
        parts.len() > 0,
    ensures
        joined(parts.update(parts.len() - 1, parts.last().push(c)), sep) == joined(parts, sep).push(c),
{
    let q = parts.update(parts.len() - 1, parts.last().push(c));
    if parts.len() > 1 {
        assert(q.drop_last() =~= parts.drop_last());
        assert(joined(q, sep) =~= joined(parts, sep).push(c));
    }
}

/// The chars of `s` with `_` made `-`, whitespace runs collapsed, and the
/// words joined by `-`.
pub fn dash_words(v: &Vec<char>) -> (r: Vec<char>)
    ensures
        r@ == joined(ws_words(dashed(v@)), seq!['-']),
{
    let ghost d = dashed(v@);
    let mut out: Vec<char> = Vec::new();
    let mut prev_ws = true;
    let mut i: usize = 0;
    assert(d.take(0) =~= Seq::<char>::empty());
    while i < v.len()
        invariant
            i <= v@.len(),
            d == dashed(v@),
            out@ == joined(ws_words(d.take(i as int)), seq!['-']),
            prev_ws == (i == 0 || is_ws(d[i - 1])),
            out@.len() > 0 <==> ws_words(d.take(i as int)).len() > 0,
        decreases v@.len() - i,
    {
        let c0 = v[i];
        let c = if c0 == '_' {
            '-'
        } else {
            c0
        };
        assert(c == d[i as int]);
        let ghost pre = d.take(i as int);
        let ghost cur = d.take(i + 1);
        assert(cur.drop_last() =~= pre);
        assert(cur.last() == c);
        proof {
            lemma_ws_words_shape(pre);
            lemma_ws_words_shape(cur);
            lemma_joined_nonempty(ws_words(pre), seq!['-']);
            lemma_joined_nonempty(ws_words(cur), seq!['-']);
        }
        if char_is_ws(c) {
            prev_ws = true;
        } else {
            if prev_ws {
                if out.len() > 0 {
                    out.push('-');
                }
                out.push(c);
                proof {
                    if i > 0 {
                        assert(cur[cur.len() - 2] == d[i - 1]);
                    }
                    let w = ws_words(pre);
                    assert(ws_words(cur) == w.push(seq![c]));
                    if w.len() == 0 {
                        assert(joined(w.push(seq![c]), seq!['-']) == seq![c]);
                        assert(out@ =~= seq![c]);
                    } else {
                        assert(w.push(seq![c]).drop_last() =~= w);
                        assert(out@ =~= joined(w, seq!['-']) + seq!['-'] + seq![c]);
                    }
                }
            } else {
                out.push(c);
                proof {
                    assert(cur[cur.len() - 2] == d[i - 1]);
                    let w = ws_words(pre);
                    lemma_joined_extend_last(w, seq!['-'], c);
                }
            }
            prev_ws = false;
        }
        i = i + 1;
    }
    assert(d.take(i as int) =~= d);
    out
}

} // verus!
