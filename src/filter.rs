//! Chainable filters over a selection of standards.

use vstd::multiset::Multiset;
use vstd::prelude::*;

use crate::library::{first_resolving, position_of, LookupError};
use crate::standard::{Standard, StandardView};
use crate::text::{
    eq_ignoring_ascii_case, lemma_text_le_total, lemma_text_le_trans, normalize_variable_name, normalized, text_eq,
    text_eq_ignore_ascii_case, text_le, text_le_exec,
};

verus! {

broadcast use vstd::seq_lib::group_to_multiset_ensures;

/// The plain values of a sequence of standards.
pub open spec fn views(s: Seq<Standard>) -> Seq<StandardView> {
    s.map_values(|x: Standard| x@)
}

/// Names ascend in `String` order.
pub open spec fn sorted_by_name(s: Seq<Standard>) -> bool {
    forall|i: int, j: int| 0 <= i < j < s.len() ==> text_le((#[trigger] s[i]).name@, (#[trigger] s[j]).name@)
}

/// The elements of `vs` whose flag in `keep` is set, in order.
pub open spec fn masked(vs: Seq<StandardView>, keep: Seq<bool>) -> Seq<StandardView>
    decreases vs.len(),
{
    if vs.len() == 0 || keep.len() == 0 {
        Seq::empty()
    } else if keep.last() {
        masked(vs.drop_last(), keep.drop_last()).push(vs.last())
    } else {
        masked(vs.drop_last(), keep.drop_last())
    }
}

proof fn lemma_masked_filter(vs: Seq<StandardView>, keep: Seq<bool>, p: spec_fn(StandardView) -> bool)
    requires
        keep.len() == vs.len(),
        forall|i: int| 0 <= i < vs.len() ==> keep[i] == p(#[trigger] vs[i]),
    ensures
        masked(vs, keep) == vs.filter(p),
    decreases vs.len(),
{
    reveal(Seq::filter);
    if vs.len() > 0 {
        assert forall|i: int| 0 <= i < vs.drop_last().len() implies keep.drop_last()[i] == p(#[trigger] vs.drop_last()[i]) by {
            assert(vs.drop_last()[i] == vs[i]);
        }
        lemma_masked_filter(vs.drop_last(), keep.drop_last(), p);
    }
}

/// Where a standard named `name` goes among `s`: before the first whose
/// name does not sort below it.
pub open spec fn insertion_point(s: Seq<StandardView>, name: Seq<char>) -> int
    decreases s.len(),
{
    if s.len() == 0 {
        0
    } else if text_le(name, s[0].name) {
        0
    } else {
        1 + insertion_point(s.drop_first(), name)
    }
}

proof fn lemma_insertion_point_bound(s: Seq<StandardView>, name: Seq<char>)
    ensures
        0 <= insertion_point(s, name) <= s.len(),
    decreases s.len(),
{
    if s.len() > 0 {
        lemma_insertion_point_bound(s.drop_first(), name);
    }
}

/// `vs` sorted by name, stably: each element is put in front of the
/// later ones whose names do not sort below its own, so standards of
/// equal name keep their order.
pub open spec fn sorted_views(vs: Seq<StandardView>) -> Seq<StandardView>
    decreases vs.len(),
{
    if vs.len() == 0 {
        vs
    } else {
        let rest = sorted_views(vs.drop_first());
        rest.insert(insertion_point(rest, vs[0].name), vs[0])
    }
}

/// Sort standards by name, keeping standards of equal name in order.
pub fn sort_by_name(v: Vec<Standard>) -> (r: Vec<Standard>)
    ensures
        sorted_by_name(r@),
        views(r@).to_multiset() == views(v@).to_multiset(),
        views(r@) == sorted_views(views(v@)),
{
    let mut rest = v;
    let mut out: Vec<Standard> = Vec::new();
    assert(views(v@).subrange(v@.len() as int, v@.len() as int) =~= Seq::<StandardView>::empty());
    assert(views(out@) =~= Seq::<StandardView>::empty());
    while rest.len() > 0
        invariant
            sorted_by_name(out@),
            views(out@).to_multiset().add(views(rest@).to_multiset()) == views(v@).to_multiset(),
            rest@.len() <= v@.len(),
            rest@ == v@.subrange(0, rest@.len() as int),
            views(out@) == sorted_views(views(v@).subrange(rest@.len() as int, v@.len() as int)),
        decreases rest@.len(),
    {
        let ghost before_rest = rest@;
        let x = rest.pop().unwrap();
        let ghost k = rest@.len() as int;
        proof {
            assert(before_rest =~= rest@.push(x));
            assert(views(before_rest) =~= views(rest@).push(x@));
            vstd::seq_lib::to_multiset_build(views(rest@), x@);
            assert(rest@ =~= v@.subrange(0, k));
            assert(x == v@[k]);
            let tail = views(v@).subrange(k, v@.len() as int);
            assert(tail.drop_first() =~= views(v@).subrange(k + 1, v@.len() as int));
            assert(tail[0] == x@);
        }
        let mut j: usize = 0;
        assert(views(out@).subrange(0, views(out@).len() as int) =~= views(out@));
        while j < out.len() && !text_le_exec(x.name.as_str(), out[j].name.as_str())
            invariant
                0 <= j <= out@.len(),
                forall|k: int| 0 <= k < j ==> !text_le(x.name@, #[trigger] out@[k].name@),
                insertion_point(views(out@), x.name@) == j + insertion_point(
                    views(out@).subrange(j as int, out@.len() as int),
                    x.name@,
                ),
            decreases out@.len() - j,
        {
            let ghost sub = views(out@).subrange(j as int, out@.len() as int);
            assert(sub.drop_first() =~= views(out@).subrange(j + 1, out@.len() as int));
            assert(sub[0] == out@[j as int]@);
            j = j + 1;
        }
        proof {
            let sub = views(out@).subrange(j as int, out@.len() as int);
            if j < out@.len() {
                assert(sub[0] == out@[j as int]@);
            }
            lemma_insertion_point_bound(views(out@), x.name@);
        }
        let ghost before = out@;
        proof {
            assert forall|k: int| 0 <= k < j implies text_le(#[trigger] before[k].name@, x.name@) by {
                lemma_text_le_total(x.name@, before[k].name@);
            }
            assert forall|k: int| j <= k < before.len() implies text_le(x.name@, #[trigger] before[k].name@) by {
                if k > j {
                    lemma_text_le_trans(x.name@, before[j as int].name@, before[k].name@);
                }
            }
        }
        out.insert(j, x);
        proof {
            assert(views(out@) =~= views(before).insert(j as int, x@));
            vstd::seq_lib::to_multiset_insert(views(before), j as int, x@);
            let n = j as int;
            assert forall|a: int, b: int| 0 <= a < b < out@.len() implies text_le((#[trigger] out@[a]).name@, (#[trigger] out@[b]).name@) by {
                if b < n {
                    assert(out@[a] == before[a] && out@[b] == before[b]);
                } else if b == n {
                    assert(out@[a] == before[a]);
                } else if a < n {
                    assert(out@[a] == before[a] && out@[b] == before[b - 1]);
                    lemma_text_le_trans(before[a].name@, x.name@, before[b - 1].name@);
                } else if a == n {
                    assert(out@[b] == before[b - 1]);
                } else {
                    assert(out@[a] == before[a - 1] && out@[b] == before[b - 1]);
                }
            }
            assert(views(out@).to_multiset().add(views(rest@).to_multiset()) =~= views(v@).to_multiset());
            assert(views(out@) == sorted_views(views(v@).subrange(rest@.len() as int, v@.len() as int)));
        }
    }
    assert(views(v@).subrange(0, v@.len() as int) =~= views(v@));
    assert(views(rest@) =~= Seq::<StandardView>::empty());
    assert(views(rest@).to_multiset() =~= Multiset::empty());
    assert(views(out@).to_multiset().add(views(rest@).to_multiset()) =~= views(out@).to_multiset());
    out
}


fn select_sorted(stds: &Vec<Standard>, keep: &Vec<bool>) -> (r: Vec<Standard>)
    requires
        keep@.len() == stds@.len(),
    ensures
        sorted_by_name(r@),
        views(r@).to_multiset() == masked(views(stds@), keep@).to_multiset(),
        views(r@) == sorted_views(masked(views(stds@), keep@)),
{
    let mut picked: Vec<Standard> = Vec::new();
    let mut i: usize = 0;
    while i < stds.len()
        invariant
            0 <= i <= stds@.len(),
            keep@.len() == stds@.len(),
            views(picked@) == masked(views(stds@.subrange(0, i as int)), keep@.subrange(0, i as int)),
        decreases stds@.len() - i,
    {
        assert(views(stds@.subrange(0, i + 1)).drop_last() =~= views(stds@.subrange(0, i as int)));
        assert(keep@.subrange(0, i + 1).drop_last() =~= keep@.subrange(0, i as int));
        if keep[i] {
            let c = stds[i].clone();
            let ghost before = picked@;
            picked.push(c);
            assert(views(picked@) =~= views(before).push(stds@[i as int]@));
        }
        i = i + 1;
    }
    assert(stds@.subrange(0, i as int) =~= stds@);
    assert(keep@.subrange(0, i as int) =~= keep@);
    sort_by_name(picked)
}

/// Every element of a selection satisfies the predicate it was made by.
proof fn lemma_selection_satisfies(r: Seq<StandardView>, vs: Seq<StandardView>, p: spec_fn(StandardView) -> bool)
    requires
        r.to_multiset() == vs.filter(p).to_multiset(),
    ensures
        forall|i: int| 0 <= i < r.len() ==> p(#[trigger] r[i]),
{
    broadcast use vstd::seq_lib::group_filter_ensures;

    assert forall|i: int| 0 <= i < r.len() implies p(#[trigger] r[i]) by {
        assert(r.contains(r[i]));
        assert(r.to_multiset().count(r[i]) > 0);
        assert(vs.filter(p).to_multiset().count(r[i]) > 0);
        assert(vs.filter(p).contains(r[i]));
    }
}

/// Some common variable name agrees with `name` once both are normalized.
pub open spec fn variable_match(v: StandardView, name: Seq<char>) -> bool {
    exists|j: int| 0 <= j < v.common_variable_names.len() && normalized(#[trigger] v.common_variable_names[j]) == normalized(name)
}

pub open spec fn variable_pred(name: Seq<char>) -> spec_fn(StandardView) -> bool {
    |v: StandardView| variable_match(v, name)
}

/// The IOOS category equals `category` when ASCII case is ignored.
pub open spec fn category_pred(category: Seq<char>) -> spec_fn(StandardView) -> bool {
    |v: StandardView| v.ioos_category is Some && eq_ignoring_ascii_case(v.ioos_category->0, category)
}

/// The unit, or one of the other units, is `unit`.
pub open spec fn unit_pred(unit: Seq<char>) -> spec_fn(StandardView) -> bool {
    |v: StandardView| v.unit == unit || v.other_units.contains(unit)
}

/// At least one QC suite is attached.
pub open spec fn qartod_pred() -> spec_fn(StandardView) -> bool {
    |v: StandardView| v.qartod.len() > 0
}

/// The selection `by_*` returns: the elements for which `p` holds, sorted
/// stably by name.
pub open spec fn selects(stds: Seq<Standard>, p: spec_fn(StandardView) -> bool, r: Seq<Standard>) -> bool {
    &&& views(r) == sorted_views(views(stds).filter(p))
    &&& sorted_by_name(r)
    &&& views(r).to_multiset() == views(stds).filter(p).to_multiset()
    &&& forall|i: int| 0 <= i < r.len() ==> p(#[trigger] r[i]@)
}

/// The positions that indicium's search returns for `query` over records
/// given as lists of texts.
pub uninterp spec fn search_hits(records: Seq<Seq<Seq<char>>>, query: Seq<char>) -> Seq<usize>;

/// Relies on indicium's `SearchIndex` (default settings): each text of a
/// record is inserted under the record's position, and `search` returns
/// keys that were inserted, so positions of records.
#[verifier::external_body]
fn indexed_search(records: &Vec<Vec<String>>, query: &str) -> (r: Vec<usize>)
    ensures
        r@ == search_hits(records.deep_view(), query@),
        forall|i: int| 0 <= i < r@.len() ==> r@[i] < records@.len(),
{
    let mut index: indicium::simple::SearchIndex<usize> = indicium::simple::SearchIndex::default();
    for (position, texts) in records.iter().enumerate() {
        for text in texts {
            index.insert(&position, text);
        }
    }
    index.search(query).into_iter().copied().collect()
}

/// The texts each standard is indexed by.
pub open spec fn indexed_texts(stds: Seq<Standard>) -> Seq<Seq<Seq<char>>> {
    stds.map_values(|s: Standard| s.search_strings_spec())
}

/// One flag per standard: whether its position is among `hits`.
pub open spec fn hit_mask(len: nat, hits: Seq<usize>) -> Seq<bool> {
    Seq::new(len, |i: int| hits.contains(i as usize))
}

/// `after` is what searching `before` for `query` selects: the standards
/// at the positions the index returns, sorted by name.
pub open spec fn searched(before: Seq<Standard>, query: Seq<char>, after: Seq<Standard>) -> bool {
    &&& views(after) == sorted_views(
        masked(views(before), hit_mask(before.len(), search_hits(indexed_texts(before), query))),
    )
    &&& sorted_by_name(after)
    &&& views(after).to_multiset() == masked(
        views(before),
        hit_mask(before.len(), search_hits(indexed_texts(before), query)),
    ).to_multiset()
}

/// Chainable filter for standards.
#[derive(Debug)]
pub struct StandardsFilter {
    pub standards: Vec<Standard>,
}

impl StandardsFilter {
    fn narrowed(&self, keep: &Vec<bool>, Ghost(p): Ghost<spec_fn(StandardView) -> bool>) -> (r: Self)
        requires
            keep@.len() == self.standards@.len(),
            forall|i: int| 0 <= i < self.standards@.len() ==> keep@[i] == p(#[trigger] self.standards@[i]@),
        ensures
            selects(self.standards@, p, r.standards@),
    {
        let standards = select_sorted(&self.standards, keep);
        proof {
            let vs = views(self.standards@);
            assert forall|i: int| 0 <= i < vs.len() implies keep@[i] == p(#[trigger] vs[i]) by {
                assert(vs[i] == self.standards@[i]@);
            }
            lemma_masked_filter(vs, keep@, p);
            lemma_selection_satisfies(views(standards@), vs, p);
            assert forall|i: int| 0 <= i < standards@.len() implies p(#[trigger] standards@[i]@) by {
                assert(views(standards@)[i] == standards@[i]@);
            }
        }
        StandardsFilter { standards }
    }

    /// Return a standard by name or alias: the first whose name is the key
    /// or whose aliases hold it.
    pub fn get(&self, standard_name_or_alias: &str) -> (r: Result<&Standard, LookupError>)
        ensures
            match r {
                Ok(s) => exists|i: int|
                    0 <= i < self.standards@.len() && first_resolving(self.standards@, standard_name_or_alias@) == Some(i)
                        && *s == #[trigger] self.standards@[i],
                Err(_) => first_resolving(self.standards@, standard_name_or_alias@) is None,
            },
    {
        match position_of(&self.standards, standard_name_or_alias) {
            Some(i) => Ok(&self.standards[i]),
            None => Err(LookupError::NotFound),
        }
    }

    /// Standards with a common variable name equal to `variable_name` once
    /// both are lower-cased and stripped of underscores, so "meanPeriod",
    /// "mean_period" and "MEAN_PERIOD" all match.
    pub fn by_variable_name(&self, variable_name: &str) -> (r: Self)
        ensures
            selects(self.standards@, variable_pred(variable_name@), r.standards@),
    {
        let target = normalize_variable_name(variable_name);
        let mut keep: Vec<bool> = Vec::new();
        let mut i: usize = 0;
        while i < self.standards.len()
            invariant
                0 <= i <= self.standards@.len(),
                target@ == normalized(variable_name@),
                keep@.len() == i,
                forall|j: int| 0 <= j < i ==> keep@[j] == variable_match(#[trigger] self.standards@[j]@, variable_name@),
            decreases self.standards@.len() - i,
        {
            let names = &self.standards[i].common_variable_names;
            let mut found = false;
            let mut k: usize = 0;
            while k < names.len() && !found
                invariant
                    0 <= k <= names@.len(),
                    i < self.standards@.len(),
                    names == self.standards@[i as int].common_variable_names,
                    target@ == normalized(variable_name@),
                    found ==> variable_match(self.standards@[i as int]@, variable_name@),
                    !found ==> forall|m: int| 0 <= m < k ==> normalized((#[trigger] names@[m])@) != normalized(variable_name@),
                decreases names@.len() - k + (if found { 0int } else { 1int }),
            {
                let n = normalize_variable_name(names[k].as_str());
                if text_eq(n.as_str(), target.as_str()) {
                    assert(names.deep_view()[k as int] == names@[k as int]@);
                    assert(self.standards@[i as int]@.common_variable_names[k as int] == names@[k as int]@);
                    found = true;
                } else {
                    k = k + 1;
                }
            }
            proof {
                if !found {
                    assert forall|m: int| 0 <= m < names.deep_view().len() implies normalized(#[trigger] names.deep_view()[m])
                        != normalized(variable_name@) by {
                        assert(names.deep_view()[m] == names@[m]@);
                    }
                }
            }
            keep.push(found);
            i = i + 1;
        }
        self.narrowed(&keep, Ghost(variable_pred(variable_name@)))
    }

    /// Standards whose IOOS category equals `category`, ignoring ASCII case.
    pub fn by_ioos_category(&self, category: &str) -> (r: Self)
        ensures
            selects(self.standards@, category_pred(category@), r.standards@),
    {
        let mut keep: Vec<bool> = Vec::new();
        let mut i: usize = 0;
        while i < self.standards.len()
            invariant
                0 <= i <= self.standards@.len(),
                keep@.len() == i,
                forall|j: int| 0 <= j < i ==> keep@[j] == category_pred(category@)(#[trigger] self.standards@[j]@),
            decreases self.standards@.len() - i,
        {
            let hit = match &self.standards[i].ioos_category {
                Some(c) => text_eq_ignore_ascii_case(c.as_str(), category),
                None => false,
            };
            keep.push(hit);
            i = i + 1;
        }
        self.narrowed(&keep, Ghost(category_pred(category@)))
    }

    /// Standards whose unit, or one of whose other units, is `unit`.
    pub fn by_unit(&self, unit: &str) -> (r: Self)
        ensures
            selects(self.standards@, unit_pred(unit@), r.standards@),
    {
        let mut keep: Vec<bool> = Vec::new();
        let mut i: usize = 0;
        while i < self.standards.len()
            invariant
                0 <= i <= self.standards@.len(),
                keep@.len() == i,
                forall|j: int| 0 <= j < i ==> keep@[j] == unit_pred(unit@)(#[trigger] self.standards@[j]@),
            decreases self.standards@.len() - i,
        {
            let s = &self.standards[i];
            let mut hit = text_eq(s.unit.as_str(), unit);
            let mut k: usize = 0;
            while k < s.other_units.len() && !hit
                invariant
                    0 <= k <= s.other_units@.len(),
                    hit ==> unit_pred(unit@)(s@),
                    !hit ==> s.unit@ != unit@ && forall|m: int| 0 <= m < k ==> (#[trigger] s.other_units@[m])@ != unit@,
                decreases s.other_units@.len() - k + (if hit { 0int } else { 1int }),
            {
                if text_eq(s.other_units[k].as_str(), unit) {
                    assert(s.other_units.deep_view()[k as int] == s.other_units@[k as int]@);
                    hit = true;
                } else {
                    k = k + 1;
                }
            }
            proof {
                if !hit {
                    assert forall|m: int| 0 <= m < s.other_units.deep_view().len() implies #[trigger] s.other_units.deep_view()[m]
                        != unit@ by {
                        assert(s.other_units.deep_view()[m] == s.other_units@[m]@);
                    }
                }
            }
            keep.push(hit);
            i = i + 1;
        }
        self.narrowed(&keep, Ghost(unit_pred(unit@)))
    }

    /// The standards at the positions in `hits`, sorted stably by name.
    pub fn select_positions(&self, hits: &Vec<usize>) -> (r: Self)
        ensures
            views(r.standards@) == sorted_views(masked(views(self.standards@), hit_mask(self.standards@.len(), hits@))),
            sorted_by_name(r.standards@),
            views(r.standards@).to_multiset() == masked(views(self.standards@), hit_mask(self.standards@.len(), hits@)).to_multiset(),
    {
        let mut keep: Vec<bool> = Vec::new();
        let mut i: usize = 0;
        while i < self.standards.len()
            invariant
                0 <= i <= self.standards@.len(),
                keep@ == hit_mask(i as nat, hits@),
            decreases self.standards@.len() - i,
        {
            let mut hit = false;
            let mut k: usize = 0;
            while k < hits.len() && !hit
                invariant
                    0 <= k <= hits@.len(),
                    hit ==> hits@.contains(i),
                    !hit ==> forall|m: int| 0 <= m < k ==> hits@[m] != i,
                decreases hits@.len() - k + (if hit { 0int } else { 1int }),
            {
                if hits[k] == i {
                    hit = true;
                } else {
                    k = k + 1;
                }
            }
            keep.push(hit);
            assert(keep@ =~= hit_mask((i + 1) as nat, hits@));
            i = i + 1;
        }
        StandardsFilter { standards: select_sorted(&self.standards, &keep) }
    }

    /// Ranked full-text search: the standards that the search index finds
    /// for `search_str` over their indexed texts, sorted by name.
    pub fn search(&self, search_str: &str) -> (r: Self)
        ensures
            searched(self.standards@, search_str@, r.standards@),
    {
        let mut records: Vec<Vec<String>> = Vec::new();
        let mut i: usize = 0;
        while i < self.standards.len()
            invariant
                0 <= i <= self.standards@.len(),
                records.deep_view() == indexed_texts(self.standards@).subrange(0, i as int),
            decreases self.standards@.len() - i,
        {
            let texts = self.standards[i].search_strings();
            let ghost before = records.deep_view();
            records.push(texts);
            assert(records.deep_view() =~= before.push(self.standards@[i as int].search_strings_spec()));
            assert(records.deep_view() =~= indexed_texts(self.standards@).subrange(0, i + 1));
            i = i + 1;
        }
        assert(indexed_texts(self.standards@).subrange(0, i as int) =~= indexed_texts(self.standards@));
        let hits = indexed_search(&records, search_str);
        self.select_positions(&hits)
    }

    /// Standards that have QARTOD tests.
    pub fn has_qartod_tests(&self) -> (r: Self)
        ensures
            selects(self.standards@, qartod_pred(), r.standards@),
    {
        let mut keep: Vec<bool> = Vec::new();
        let mut i: usize = 0;
        while i < self.standards.len()
            invariant
                0 <= i <= self.standards@.len(),
                keep@.len() == i,
                forall|j: int| 0 <= j < i ==> keep@[j] == qartod_pred()(#[trigger] self.standards@[j]@),
            decreases self.standards@.len() - i,
        {
            keep.push(self.standards[i].qartod.len() > 0);
            i = i + 1;
        }
        self.narrowed(&keep, Ghost(qartod_pred()))
    }
}


/// Variable names with the same normalized form select the same standards:
/// any selection valid for one is valid for the other.
pub proof fn lemma_variable_name_normalization(stds: Seq<Standard>, v1: Seq<char>, v2: Seq<char>)
    requires
        normalized(v1) == normalized(v2),
    ensures
        views(stds).filter(variable_pred(v1)) == views(stds).filter(variable_pred(v2)),
        forall|r: Seq<Standard>| #[trigger] selects(stds, variable_pred(v1), r) <==> selects(stds, variable_pred(v2), r),
        forall|r1: Seq<Standard>, r2: Seq<Standard>|
            #[trigger] selects(stds, variable_pred(v1), r1) && #[trigger] selects(stds, variable_pred(v2), r2) ==> views(r1)
                == views(r2),
{
    assert(variable_pred(v1) =~= variable_pred(v2));
}

} // verus!
