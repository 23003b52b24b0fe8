//! Text primitives: case folding, normalisation, containment and the byte
//! order that `String` sorts by.

use vstd::prelude::*;
use vstd::utf8::encode_utf8;

verus! {

/// What `str::to_lowercase` returns for a text.
pub uninterp spec fn lower_of(s: Seq<char>) -> Seq<char>;

/// Relies on `str::to_lowercase`: Unicode lower-casing, a function of the
/// characters alone.
#[verifier::external_body]
pub(crate) fn lowercase(s: &str) -> (r: String)
    ensures
        r@ == lower_of(s@),
{
    s.to_lowercase()
}

/// The text with every underscore taken out.
pub open spec fn without_underscores(s: Seq<char>) -> Seq<char> {
    s.filter(|c: char| c != '_')
}

/// Relies on `str::replace`: each `_` is replaced by nothing, the other
/// characters stay in order.
#[verifier::external_body]
fn remove_underscores(s: &str) -> (r: String)
    ensures
        r@ == without_underscores(s@),
{
    s.replace('_', "")
}

/// The form under which variable names are compared: lower case, without
/// underscores, so that `mean_period`, `meanPeriod` and `MEAN_PERIOD` agree.
pub open spec fn normalized(s: Seq<char>) -> Seq<char> {
    without_underscores(lower_of(s))
}

/// Normalize a variable name by converting to lowercase and removing
/// underscores.
pub fn normalize_variable_name(name: &str) -> (r: String)
    ensures
        r@ == normalized(name@),
{
    let lower = lowercase(name);
    remove_underscores(lower.as_str())
}

/// `q` occurs in `s` as a contiguous run of characters.
pub open spec fn contains_text(s: Seq<char>, q: Seq<char>) -> bool {
    exists|i: int| 0 <= i && i + q.len() <= s.len() && #[trigger] s.subrange(i, i + q.len()) == q
}

/// Relies on `str::contains` with a `&str` pattern: true iff the pattern
/// occurs in the text.
#[verifier::external_body]
pub(crate) fn text_contains(s: &str, q: &str) -> (r: bool)
    ensures
        r == contains_text(s@, q@),
{
    s.contains(q)
}

/// Whether two texts are the same, compared byte by byte.
pub(crate) fn text_eq(a: &str, b: &str) -> (r: bool)
    ensures
        r == (a@ == b@),
{
    let x = a.as_bytes();
    let y = b.as_bytes();
    if x.len() != y.len() {
        return false;
    }
    let mut i: usize = 0;
    while i < x.len()
        invariant
            x@ == encode_utf8(a@),
            y@ == encode_utf8(b@),
            x@.len() == y@.len(),
            0 <= i <= x@.len(),
            forall|k: int| 0 <= k < i ==> x@[k] == y@[k],
        decreases x@.len() - i,
    {
        if x[i] != y[i] {
            return false;
        }
        i = i + 1;
    }
    proof {
        assert(x@ =~= y@);
        vstd::utf8::encode_utf8_decode_utf8(a@);
        vstd::utf8::encode_utf8_decode_utf8(b@);
    }
    true
}

/// `s` ends with `suffix`.
pub open spec fn ends_with(s: Seq<char>, suffix: Seq<char>) -> bool {
    s.len() >= suffix.len() && s.subrange(s.len() - suffix.len(), s.len() as int) == suffix
}

/// Whether `s` ends with `suffix`, compared character by character.
pub(crate) fn text_ends_with(s: &str, suffix: &str) -> (r: bool)
    ensures
        r == ends_with(s@, suffix@),
{
    let n = s.unicode_len();
    let m = suffix.unicode_len();
    if m > n {
        return false;
    }
    let mut i: usize = 0;
    while i < m
        invariant
            n == s@.len(),
            m == suffix@.len(),
            m <= n,
            0 <= i <= m,
            forall|k: int| 0 <= k < i ==> s@[n - m + k] == suffix@[k],
        decreases m - i,
    {
        if s.get_char(n - m + i) != suffix.get_char(i) {
            assert(s@.subrange(n - m, n as int)[i as int] != suffix@[i as int]);
            return false;
        }
        i = i + 1;
    }
    assert(s@.subrange(n - m, n as int) =~= suffix@);
    true
}

/// ASCII upper-case letters mapped to lower case, other bytes kept.
pub open spec fn ascii_lower_byte(b: u8) -> u8 {
    if 65 <= b && b <= 90 {
        (b + 32) as u8
    } else {
        b
    }
}

/// Equality of two texts when ASCII letters are compared without case.
pub open spec fn eq_ignoring_ascii_case(a: Seq<char>, b: Seq<char>) -> bool {
    let x = encode_utf8(a);
    let y = encode_utf8(b);
    &&& x.len() == y.len()
    &&& forall|i: int| 0 <= i < x.len() ==> ascii_lower_byte(#[trigger] x[i]) == ascii_lower_byte(y[i])
}

/// Whether two texts are equal once ASCII letters are lower-cased,
/// compared byte by byte.
pub(crate) fn text_eq_ignore_ascii_case(a: &str, b: &str) -> (r: bool)
    ensures
        r == eq_ignoring_ascii_case(a@, b@),
{
    let x = a.as_bytes();
    let y = b.as_bytes();
    if x.len() != y.len() {
        return false;
    }
    let mut i: usize = 0;
    while i < x.len()
        invariant
            x@ == encode_utf8(a@),
            y@ == encode_utf8(b@),
            x@.len() == y@.len(),
            0 <= i <= x@.len(),
            forall|k: int| 0 <= k < i ==> ascii_lower_byte(#[trigger] x@[k]) == ascii_lower_byte(y@[k]),
        decreases x@.len() - i,
    {
        let p = x[i];
        let q = y[i];
        let lp: u8 = if 65 <= p && p <= 90 { p + 32 } else { p };
        let lq: u8 = if 65 <= q && q <= 90 { q + 32 } else { q };
        if lp != lq {
            return false;
        }
        i = i + 1;
    }
    true
}

/// Lexicographic order on byte strings, shorter prefix first.
pub open spec fn bytes_le(a: Seq<u8>, b: Seq<u8>) -> bool
    decreases a.len(),
{
    if a.len() == 0 {
        true
    } else if b.len() == 0 {
        false
    } else if a[0] != b[0] {
        a[0] < b[0]
    } else {
        bytes_le(a.drop_first(), b.drop_first())
    }
}

/// The order of `String`: the order of the UTF-8 encodings.
pub open spec fn text_le(a: Seq<char>, b: Seq<char>) -> bool {
    bytes_le(encode_utf8(a), encode_utf8(b))
}

pub proof fn lemma_bytes_le_total(a: Seq<u8>, b: Seq<u8>)
    ensures
        bytes_le(a, b) || bytes_le(b, a),
    decreases a.len(),
{
    if a.len() > 0 && b.len() > 0 && a[0] == b[0] {
        lemma_bytes_le_total(a.drop_first(), b.drop_first());
    }
}

pub proof fn lemma_bytes_le_trans(a: Seq<u8>, b: Seq<u8>, c: Seq<u8>)
    requires
        bytes_le(a, b),
        bytes_le(b, c),
    ensures
        bytes_le(a, c),
    decreases a.len(),
{
    if a.len() > 0 && b.len() > 0 && c.len() > 0 && a[0] == b[0] && b[0] == c[0] {
        lemma_bytes_le_trans(a.drop_first(), b.drop_first(), c.drop_first());
    }
}

pub proof fn lemma_bytes_le_antisym(a: Seq<u8>, b: Seq<u8>)
    requires
        bytes_le(a, b),
        bytes_le(b, a),
    ensures
        a == b,
    decreases a.len(),
{
    if a.len() > 0 && b.len() > 0 {
        lemma_bytes_le_antisym(a.drop_first(), b.drop_first());
        assert(a =~= seq![a[0]] + a.drop_first());
        assert(b =~= seq![b[0]] + b.drop_first());
    }
}

pub proof fn lemma_text_le_antisym(a: Seq<char>, b: Seq<char>)
    requires
        text_le(a, b),
        text_le(b, a),
    ensures
        a == b,
{
    lemma_bytes_le_antisym(encode_utf8(a), encode_utf8(b));
    vstd::utf8::encode_utf8_decode_utf8(a);
    vstd::utf8::encode_utf8_decode_utf8(b);
}

pub proof fn lemma_text_le_total(a: Seq<char>, b: Seq<char>)
    ensures
        text_le(a, b) || text_le(b, a),
{
    lemma_bytes_le_total(encode_utf8(a), encode_utf8(b));
}

pub proof fn lemma_text_le_trans(a: Seq<char>, b: Seq<char>, c: Seq<char>)
    requires
        text_le(a, b),
        text_le(b, c),
    ensures
        text_le(a, c),
{
    lemma_bytes_le_trans(encode_utf8(a), encode_utf8(b), encode_utf8(c));
}

pub proof fn lemma_text_le_refl(a: Seq<char>)
    ensures
        text_le(a, a),
{
    lemma_bytes_le_total(encode_utf8(a), encode_utf8(a));
}

/// Whether `a` sorts before or with `b` as `String`s do.
pub fn text_le_exec(a: &str, b: &str) -> (r: bool)
    ensures
        r == text_le(a@, b@),
{
    let x = a.as_bytes();
    let y = b.as_bytes();
    let mut i: usize = 0;
    assert(x@.subrange(0, x@.len() as int) =~= x@);
    assert(y@.subrange(0, y@.len() as int) =~= y@);
    while i < x.len() && i < y.len()
        invariant
            0 <= i <= x@.len(),
            i <= y@.len(),
            x@ == encode_utf8(a@),
            y@ == encode_utf8(b@),
            bytes_le(x@, y@) == bytes_le(x@.subrange(i as int, x@.len() as int), y@.subrange(i as int, y@.len() as int)),
        decreases x.len() - i,
    {
        let ghost xs = x@.subrange(i as int, x@.len() as int);
        let ghost ys = y@.subrange(i as int, y@.len() as int);
        if x[i] != y[i] {
            return x[i] < y[i];
        }
        assert(xs.drop_first() =~= x@.subrange(i + 1, x@.len() as int));
        assert(ys.drop_first() =~= y@.subrange(i + 1, y@.len() as int));
        i = i + 1;
    }
    i == x.len()
}


/// The non-empty texts of `ss`, in order.
pub open spec fn nonempty_texts(ss: Seq<Seq<char>>) -> Seq<Seq<char>> {
    ss.filter(|s: Seq<char>| s.len() > 0)
}

pub proof fn lemma_nonempty_texts_add(a: Seq<Seq<char>>, b: Seq<Seq<char>>)
    ensures
        nonempty_texts(a + b) == nonempty_texts(a) + nonempty_texts(b),
{
    Seq::filter_distributes_over_add(a, b, |s: Seq<char>| s.len() > 0);
}

pub proof fn lemma_nonempty_texts_push(a: Seq<Seq<char>>, x: Seq<char>)
    ensures
        nonempty_texts(a.push(x)) == if x.len() > 0 {
            nonempty_texts(a).push(x)
        } else {
            nonempty_texts(a)
        },
{
    a.lemma_filter_push(x, |s: Seq<char>| s.len() > 0);
}

/// Append `s` to `out` when it is not empty.
pub fn push_nonempty(out: &mut Vec<String>, s: &String)
    ensures
        final(out).deep_view() == old(out).deep_view() + nonempty_texts(seq![s@]),
{
    proof {
        lemma_nonempty_texts_push(Seq::empty(), s@);
        assert(Seq::<Seq<char>>::empty().push(s@) =~= seq![s@]);
        reveal(Seq::filter);
    }
    if !s.as_str().is_empty() {
        out.push(s.clone());
        assert(final(out).deep_view() =~= old(out).deep_view() + nonempty_texts(seq![s@]));
    } else {
        assert(nonempty_texts(seq![s@]) =~= Seq::<Seq<char>>::empty());
        assert(out.deep_view() =~= old(out).deep_view() + nonempty_texts(seq![s@]));
    }
}

/// Append the non-empty texts of `ss` to `out`.
pub fn push_nonempty_all(out: &mut Vec<String>, ss: &Vec<String>)
    ensures
        final(out).deep_view() == old(out).deep_view() + nonempty_texts(ss.deep_view()),
{
    let ghost start = out.deep_view();
    let mut i: usize = 0;
    proof {
        reveal(Seq::filter);
        assert(ss.deep_view().subrange(0, 0) =~= Seq::<Seq<char>>::empty());
        assert(out.deep_view() =~= start + nonempty_texts(ss.deep_view().subrange(0, 0)));
    }
    while i < ss.len()
        invariant
            0 <= i <= ss@.len(),
            out.deep_view() == start + nonempty_texts(ss.deep_view().subrange(0, i as int)),
        decreases ss@.len() - i,
    {
        proof {
            assert(ss.deep_view().subrange(0, i + 1) =~= ss.deep_view().subrange(0, i as int).push(ss@[i as int]@));
            lemma_nonempty_texts_push(ss.deep_view().subrange(0, i as int), ss@[i as int]@);
        }
        if !ss[i].as_str().is_empty() {
            let c = ss[i].clone();
            let ghost before = out.deep_view();
            out.push(c);
            assert(out.deep_view() =~= before.push(ss@[i as int]@));
            assert(out.deep_view() =~= start + nonempty_texts(ss.deep_view().subrange(0, i + 1)));
        }
        i = i + 1;
    }
    assert(ss.deep_view().subrange(0, i as int) =~= ss.deep_view());
}


/// The texts one after the other, `sep` between each two.
pub open spec fn join(ss: Seq<Seq<char>>, sep: Seq<char>) -> Seq<char>
    decreases ss.len(),
{
    if ss.len() == 0 {
        Seq::empty()
    } else if ss.len() == 1 {
        ss[0]
    } else {
        join(ss.drop_last(), sep) + sep + ss.last()
    }
}

/// Join texts with a separator.
pub fn join_texts(ss: &Vec<String>, sep: &str) -> (r: String)
    ensures
        r@ == join(ss.deep_view(), sep@),
{
    let mut out = String::new();
    let mut i: usize = 0;
    while i < ss.len()
        invariant
            0 <= i <= ss@.len(),
            out@ == join(ss.deep_view().subrange(0, i as int), sep@),
        decreases ss@.len() - i,
    {
        assert(ss.deep_view().subrange(0, i + 1).drop_last() =~= ss.deep_view().subrange(0, i as int));
        if i > 0 {
            out.append(sep);
        }
        out.append(ss[i].as_str());
        i = i + 1;
    }
    assert(ss.deep_view().subrange(0, i as int) =~= ss.deep_view());
    out
}

} // verus!
