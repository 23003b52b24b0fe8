//! Ordered text-to-text mappings held as pairs sorted by key.

use vstd::prelude::*;

use crate::text::{lemma_text_le_antisym, lemma_text_le_refl, lemma_text_le_total, lemma_text_le_trans, text_eq, text_le, text_le_exec};

verus! {

/// Attribute pairs over plain values.
pub open spec fn pairs_view(s: Seq<(String, String)>) -> Seq<(Seq<char>, Seq<char>)> {
    s.map_values(|p: (String, String)| (p.0@, p.1@))
}

/// Keys strictly ascending in `String` order, so each key occurs once.
pub open spec fn keys_sorted(s: Seq<(String, String)>) -> bool {
    forall|i: int, j: int| 0 <= i < j < s.len() ==> text_le(#[trigger] s[i].0@, #[trigger] s[j].0@) && s[i].0@ != s[j].0@
}

/// The mapping holds `key` with `value`.
pub open spec fn has_attr(s: Seq<(String, String)>, key: Seq<char>, value: Seq<char>) -> bool {
    exists|j: int| 0 <= j < s.len() && (#[trigger] s[j]).0@ == key && s[j].1@ == value
}

/// The mapping holds `key`, with any value.
pub open spec fn has_key(s: Seq<(String, String)>, key: Seq<char>) -> bool {
    exists|j: int| 0 <= j < s.len() && (#[trigger] s[j]).0@ == key
}

/// A key is held with at most one value.
pub proof fn lemma_attr_unique(s: Seq<(String, String)>, key: Seq<char>, v1: Seq<char>, v2: Seq<char>)
    requires
        keys_sorted(s),
        has_attr(s, key, v1),
        has_attr(s, key, v2),
    ensures
        v1 == v2,
{
    let i = choose|j: int| 0 <= j < s.len() && (#[trigger] s[j]).0@ == key && s[j].1@ == v1;
    let k = choose|j: int| 0 <= j < s.len() && (#[trigger] s[j]).0@ == key && s[j].1@ == v2;
    if i < k {
        assert(s[i].0@ != s[k].0@);
    } else if k < i {
        assert(s[k].0@ != s[i].0@);
    }
}

/// Set `key` to `value`, replacing the value it had.
pub fn upsert_attr(attrs: &mut Vec<(String, String)>, key: String, value: String)
    requires
        keys_sorted(old(attrs)@),
    ensures
        keys_sorted(final(attrs)@),
        forall|k: Seq<char>, v: Seq<char>| #[trigger] has_attr(final(attrs)@, k, v) <==> ((k == key@ && v == value@)
            || (k != key@ && has_attr(old(attrs)@, k, v))),
        forall|k: Seq<char>| #[trigger] has_key(final(attrs)@, k) <==> (k == key@ || has_key(old(attrs)@, k)),
{
    let ghost a = attrs@;
    let mut i: usize = 0;
    while i < attrs.len() && !text_le_exec(key.as_str(), attrs[i].0.as_str())
        invariant
            attrs@ == a,
            0 <= i <= a.len(),
            forall|j: int| 0 <= j < i ==> !text_le(key@, #[trigger] a[j].0@),
        decreases a.len() - i,
    {
        i = i + 1;
    }
    proof {
        assert forall|j: int| 0 <= j < i implies text_le(#[trigger] a[j].0@, key@) && a[j].0@ != key@ by {
            lemma_text_le_total(key@, a[j].0@);
            lemma_text_le_refl(key@);
        }
    }
    if i < attrs.len() && text_eq(attrs[i].0.as_str(), key.as_str()) {
        attrs.set(i, (key, value));
        proof {
            let b = attrs@;
            assert(b =~= a.update(i as int, b[i as int]));
            assert forall|k: Seq<char>, v: Seq<char>| #[trigger] has_attr(b, k, v) <==> ((k == key@ && v == value@) || (k != key@
                && has_attr(a, k, v))) by {
                if has_attr(b, k, v) {
                    let j = choose|j: int| 0 <= j < b.len() && (#[trigger] b[j]).0@ == k && b[j].1@ == v;
                    if j != i {
                        assert(a[j] == b[j]);
                        assert(a[j].0@ != a[i as int].0@ || j == i);
                    }
                }
                if k != key@ && has_attr(a, k, v) {
                    let j = choose|j: int| 0 <= j < a.len() && (#[trigger] a[j]).0@ == k && a[j].1@ == v;
                    assert(b[j] == a[j]);
                }
                if k == key@ && v == value@ {
                    assert(b[i as int].0@ == k);
                }
            }
            assert forall|k: Seq<char>| #[trigger] has_key(b, k) <==> (k == key@ || has_key(a, k)) by {
                if has_key(b, k) {
                    let j = choose|j: int| 0 <= j < b.len() && (#[trigger] b[j]).0@ == k;
                    if j != i {
                        assert(a[j] == b[j]);
                    }
                }
                if has_key(a, k) {
                    let j = choose|j: int| 0 <= j < a.len() && (#[trigger] a[j]).0@ == k;
                    if j != i {
                        assert(a[j] == b[j]);
                    } else {
                        assert(b[i as int].0@ == k);
                    }
                }
                if k == key@ {
                    assert(b[i as int].0@ == k);
                }
            }
        }
    } else {
        attrs.insert(i, (key, value));
        proof {
            let b = attrs@;
            let n = i as int;
            assert forall|j: int| n < j < a.len() implies text_le(key@, #[trigger] a[j].0@) && a[j].0@ != key@ by {
                lemma_text_le_total(key@, a[n].0@);
                assert(text_le(a[n].0@, a[j].0@));
                lemma_text_le_trans(key@, a[n].0@, a[j].0@);
                if a[j].0@ == key@ {
                    lemma_text_le_antisym(a[n].0@, a[j].0@);
                }
            }
            assert forall|j: int| n <= j < a.len() implies text_le(key@, #[trigger] a[j].0@) && a[j].0@ != key@ by {
                if j == n {
                    lemma_text_le_total(key@, a[n].0@);
                }
            }
            assert forall|x: int, y: int| 0 <= x < y < b.len() implies text_le(#[trigger] b[x].0@, #[trigger] b[y].0@) && b[x].0@ != b[y].0@ by {
                if y < n {
                    assert(b[x] == a[x] && b[y] == a[y]);
                } else if y == n {
                    assert(b[x] == a[x]);
                } else if x < n {
                    assert(b[x] == a[x] && b[y] == a[y - 1]);
                    lemma_text_le_trans(a[x].0@, key@, a[y - 1].0@);
                    if a[x].0@ == a[y - 1].0@ {
                        lemma_text_le_antisym(a[x].0@, key@);
                    }
                } else if x == n {
                    assert(b[y] == a[y - 1]);
                } else {
                    assert(b[x] == a[x - 1] && b[y] == a[y - 1]);
                }
            }
            assert forall|k: Seq<char>, v: Seq<char>| #[trigger] has_attr(b, k, v) <==> ((k == key@ && v == value@) || (k != key@
                && has_attr(a, k, v))) by {
                if has_attr(b, k, v) {
                    let j = choose|j: int| 0 <= j < b.len() && (#[trigger] b[j]).0@ == k && b[j].1@ == v;
                    if j < n {
                        assert(a[j] == b[j]);
                    } else if j > n {
                        assert(a[j - 1] == b[j]);
                    }
                }
                if k != key@ && has_attr(a, k, v) {
                    let j = choose|j: int| 0 <= j < a.len() && (#[trigger] a[j]).0@ == k && a[j].1@ == v;
                    if j < n {
                        assert(b[j] == a[j]);
                    } else {
                        assert(b[j + 1] == a[j]);
                    }
                }
                if k == key@ && v == value@ {
                    assert(b[n].0@ == k);
                }
            }
            assert forall|k: Seq<char>| #[trigger] has_key(b, k) <==> (k == key@ || has_key(a, k)) by {
                if has_key(b, k) {
                    let j = choose|j: int| 0 <= j < b.len() && (#[trigger] b[j]).0@ == k;
                    if j < n {
                        assert(a[j] == b[j]);
                    } else if j > n {
                        assert(a[j - 1] == b[j]);
                    }
                }
                if has_key(a, k) {
                    let j = choose|j: int| 0 <= j < a.len() && (#[trigger] a[j]).0@ == k;
                    if j < n {
                        assert(b[j] == a[j]);
                    } else {
                        assert(b[j + 1] == a[j]);
                    }
                }
                if k == key@ {
                    assert(b[n].0@ == k);
                }
            }
        }
    }
}


/// Two mappings in key order that hold the same pairs are the same
/// sequence of texts.
pub proof fn lemma_sorted_attrs_equal(a: Seq<(String, String)>, b: Seq<(String, String)>)
    requires
        keys_sorted(a),
        keys_sorted(b),
        forall|k: Seq<char>, v: Seq<char>| #[trigger] has_attr(a, k, v) <==> has_attr(b, k, v),
    ensures
        pairs_view(a) == pairs_view(b),
    decreases a.len(),
{
    if a.len() == 0 {
        assert(b.len() == 0) by {
            if b.len() > 0 {
                assert(has_attr(b, b[0].0@, b[0].1@));
                assert(has_attr(a, b[0].0@, b[0].1@));
            }
        }
        assert(pairs_view(a) =~= pairs_view(b));
    } else {
        assert(has_attr(a, a[0].0@, a[0].1@));
        assert(has_attr(b, a[0].0@, a[0].1@));
        let j = choose|j: int| 0 <= j < b.len() && (#[trigger] b[j]).0@ == a[0].0@ && b[j].1@ == a[0].1@;
        assert(has_attr(b, b[0].0@, b[0].1@));
        assert(has_attr(a, b[0].0@, b[0].1@));
        let i = choose|i: int| 0 <= i < a.len() && (#[trigger] a[i]).0@ == b[0].0@ && a[i].1@ == b[0].1@;
        if j > 0 {
            assert(text_le(b[0].0@, b[j].0@));
            if i > 0 {
                assert(text_le(a[0].0@, a[i].0@));
                lemma_text_le_antisym(a[0].0@, b[0].0@);
            }
        }
        if i > 0 && j == 0 {
            assert(a[0].0@ != a[i].0@);
        }
        assert(j == 0 && i == 0);
        let a1 = a.drop_first();
        let b1 = b.drop_first();
        assert forall|x: int, y: int| 0 <= x < y < a1.len() implies text_le(#[trigger] a1[x].0@, #[trigger] a1[y].0@) && a1[x].0@ != a1[y].0@ by {
            assert(a1[x] == a[x + 1] && a1[y] == a[y + 1]);
        }
        assert forall|x: int, y: int| 0 <= x < y < b1.len() implies text_le(#[trigger] b1[x].0@, #[trigger] b1[y].0@) && b1[x].0@ != b1[y].0@ by {
            assert(b1[x] == b[x + 1] && b1[y] == b[y + 1]);
        }
        assert forall|k: Seq<char>, v: Seq<char>| #[trigger] has_attr(a1, k, v) <==> has_attr(b1, k, v) by {
            if has_attr(a1, k, v) {
                let x = choose|x: int| 0 <= x < a1.len() && (#[trigger] a1[x]).0@ == k && a1[x].1@ == v;
                assert(a[x + 1] == a1[x]);
                assert(has_attr(a, k, v));
                let y = choose|y: int| 0 <= y < b.len() && (#[trigger] b[y]).0@ == k && b[y].1@ == v;
                assert(a[0].0@ != a[x + 1].0@);
                assert(y != 0);
                assert(b1[y - 1] == b[y]);
            }
            if has_attr(b1, k, v) {
                let x = choose|x: int| 0 <= x < b1.len() && (#[trigger] b1[x]).0@ == k && b1[x].1@ == v;
                assert(b[x + 1] == b1[x]);
                assert(has_attr(b, k, v));
                assert(has_attr(a, k, v));
                let y = choose|y: int| 0 <= y < a.len() && (#[trigger] a[y]).0@ == k && a[y].1@ == v;
                assert(b[0].0@ != b[x + 1].0@);
                assert(y != 0);
                assert(a1[y - 1] == a[y]);
            }
        }
        lemma_sorted_attrs_equal(a1, b1);
        assert(pairs_view(a) =~= seq![(a[0].0@, a[0].1@)] + pairs_view(a1));
        assert(pairs_view(b) =~= seq![(b[0].0@, b[0].1@)] + pairs_view(b1));
    }
}

} // verus!
