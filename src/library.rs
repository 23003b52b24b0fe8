//! The library: every standard by name, with the load steps that fill it,
//! the overlay of knowledge, and lookup.

use vstd::prelude::*;

use crate::attrs::{has_attr, has_key, keys_sorted, lemma_sorted_attrs_equal, upsert_attr};
use crate::knowledge::Knowledge;
use crate::filter::{views, StandardsFilter};
use crate::qartod::{test_suites, StaticQcTestSuite, TestSuite};
use crate::standard::{clone_suites, clone_texts, opt_view, present, Standard, StandardView};
use crate::text::text_eq;

verus! {

/// `key` is the standard's name or one of its aliases.
pub open spec fn resolves(s: Standard, key: Seq<char>) -> bool {
    s.name@ == key || s.aliases.deep_view().contains(key)
}

/// No name or alias resolves to two different standards.
pub open spec fn keys_disjoint(stds: Seq<Standard>) -> bool {
    forall|i: int, j: int, key: Seq<char>|
        0 <= i < stds.len() && 0 <= j < stds.len() && i != j && #[trigger] resolves(stds[i], key) ==> !#[trigger] resolves(
            stds[j],
            key,
        )
}

/// The standards held in `stds` are well formed, and names and aliases
/// resolve to one standard at most.
pub open spec fn standards_wf(stds: Seq<Standard>) -> bool {
    &&& keys_disjoint(stds)
    &&& forall|i: int| 0 <= i < stds.len() ==> (#[trigger] stds[i]).wf()
}

/// The first standard that `key` resolves to.
pub open spec fn first_resolving(stds: Seq<Standard>, key: Seq<char>) -> Option<int>
    decreases stds.len(),
{
    if stds.len() == 0 {
        None
    } else if resolves(stds[0], key) {
        Some(0)
    } else {
        match first_resolving(stds.drop_first(), key) {
            Some(i) => Some(i + 1),
            None => None,
        }
    }
}

pub proof fn lemma_first_resolving(stds: Seq<Standard>, key: Seq<char>)
    ensures
        first_resolving(stds, key) matches Some(i) ==> 0 <= i < stds.len() && resolves(stds[i], key) && forall|j: int|
            0 <= j < i ==> !resolves(#[trigger] stds[j], key),
        first_resolving(stds, key) is None ==> forall|j: int| 0 <= j < stds.len() ==> !resolves(#[trigger] stds[j], key),
    decreases stds.len(),
{
    if stds.len() > 0 {
        lemma_first_resolving(stds.drop_first(), key);
        assert forall|j: int| 1 <= j < stds.len() implies stds[j] == stds.drop_first()[j - 1] by {}
    }
}

/// Whether the standard's name or one of its aliases is `key`.
pub fn standard_resolves(s: &Standard, key: &str) -> (r: bool)
    ensures
        r == resolves(*s, key@),
{
    if text_eq(s.name.as_str(), key) {
        return true;
    }
    let mut i: usize = 0;
    while i < s.aliases.len()
        invariant
            0 <= i <= s.aliases@.len(),
            s.name@ != key@,
            forall|j: int| 0 <= j < i ==> (#[trigger] s.aliases@[j])@ != key@,
        decreases s.aliases@.len() - i,
    {
        if text_eq(s.aliases[i].as_str(), key) {
            assert(s.aliases.deep_view()[i as int] == key@);
            return true;
        }
        i = i + 1;
    }
    assert forall|j: int| 0 <= j < s.aliases.deep_view().len() implies s.aliases.deep_view()[j] != key@ by {
        assert(s.aliases.deep_view()[j] == s.aliases@[j]@);
    }
    false
}

/// The position of the first standard that `key` resolves to.
pub fn position_of(stds: &Vec<Standard>, key: &str) -> (r: Option<usize>)
    ensures
        r matches Some(i) ==> first_resolving(stds@, key@) == Some(i as int) && i < stds@.len(),
        r is None ==> first_resolving(stds@, key@) is None,
{
    let mut i: usize = 0;
    while i < stds.len()
        invariant
            0 <= i <= stds@.len(),
            forall|j: int| 0 <= j < i ==> !resolves(#[trigger] stds@[j], key@),
        decreases stds@.len() - i,
    {
        if standard_resolves(&stds[i], key) {
            proof {
                lemma_first_resolving(stds@, key@);
                if first_resolving(stds@, key@) is None {
                } else {
                    let f = first_resolving(stds@, key@)->0;
                    if f < i {
                    } else if f > i {
                    }
                }
            }
            return Some(i);
        }
        i = i + 1;
    }
    proof {
        lemma_first_resolving(stds@, key@);
    }
    None
}

/// A name or alias that no standard has.
#[derive(Debug)]
pub enum LookupError {
    NotFound,
}

impl LookupError {
    pub fn message(&self) -> (r: String)
        ensures
            r@ == "Unknown Standard"@,
    {
        String::from_str("Unknown Standard")
    }
}

/// The standards that the library owns, keyed by name.
#[derive(Debug)]
pub struct StandardsLibrary {
    pub standards: Vec<Standard>,
}

/// The standard that knowledge `k` turns `old` into.
pub open spec fn merged(old: Standard, k: Knowledge, new: Standard) -> bool {
    &&& new.name@ == old.name@
    &&& new.unit@ == old.unit@
    &&& new.description@ == old.description@
    &&& new.aliases.deep_view() == old.aliases.deep_view()
    &&& opt_view(new.long_name) == opt_view(k.long_name)
    &&& opt_view(new.ioos_category) == opt_view(k.ioos_category)
    &&& opt_view(new.comments) == opt_view(k.comments)
    &&& new.common_variable_names.deep_view() == old.common_variable_names.deep_view()
        + k.common_variable_names.deep_view()
    &&& new.related_standards.deep_view() == old.related_standards.deep_view() + k.related_standards.deep_view()
    &&& new.sibling_standards.deep_view() == old.sibling_standards.deep_view() + k.sibling_standards.deep_view()
    &&& new.other_units.deep_view() == k.other_units.deep_view()
    &&& keys_sorted(new.extra_attrs@)
    &&& forall|key: Seq<char>, value: Seq<char>| #[trigger] has_attr(new.extra_attrs@, key, value) <==> (has_attr(
        k.extra_attrs@,
        key,
        value,
    ) || (!has_key(k.extra_attrs@, key) && has_attr(old.extra_attrs@, key, value)))
    &&& new.qartod@ == old.qartod@ + static_suites(k.qc@)
}

/// The static suites that a record's QC entries become, in order.
pub open spec fn static_suites(qc: Seq<(String, crate::qartod::StaticQc)>) -> Seq<TestSuite> {
    qc.map_values(|p: (String, crate::qartod::StaticQc)| TestSuite::Static(StaticQcTestSuite { slug: p.0, qc: p.1 }))
}

/// The position of the standard named `name`.
pub open spec fn named_at(stds: Seq<Standard>, name: Seq<char>, i: int) -> bool {
    0 <= i < stds.len() && stds[i].name@ == name
}

/// `new` is `old` with knowledge `k` applied: the standard named by the
/// record is merged with it; when there is none, nothing changes.
pub open spec fn applied(old: Seq<Standard>, k: Knowledge, new: Seq<Standard>) -> bool {
    &&& new.len() == old.len()
    &&& if exists|i: int| #[trigger] named_at(old, k.name@, i) {
        let i = choose|i: int| #[trigger] named_at(old, k.name@, i);
        merged(old[i], k, new[i]) && forall|j: int| 0 <= j < old.len() && j != i ==> (#[trigger] new[j])@ == old[j]@
    } else {
        forall|j: int| 0 <= j < old.len() ==> (#[trigger] new[j])@ == old[j]@
    }
}


fn concat_texts(a: &Vec<String>, b: &Vec<String>) -> (r: Vec<String>)
    ensures
        r.deep_view() == a.deep_view() + b.deep_view(),
{
    let mut x = clone_texts(a);
    let mut y = clone_texts(b);
    x.append(&mut y);
    assert(x.deep_view() =~= a.deep_view() + b.deep_view());
    x
}

fn clone_option(o: &Option<String>) -> (r: Option<String>)
    ensures
        r == *o,
{
    match o {
        Some(s) => Some(s.clone()),
        None => None,
    }
}

/// Lay the attributes `over` (sorted, keys once) over `base`.
fn overlay_attrs(base: &Vec<(String, String)>, over: &Vec<(String, String)>) -> (r: Vec<(String, String)>)
    requires
        keys_sorted(base@),
        keys_sorted(over@),
    ensures
        keys_sorted(r@),
        forall|key: Seq<char>, value: Seq<char>| #[trigger] has_attr(r@, key, value) <==> (has_attr(over@, key, value) || (
        !has_key(over@, key) && has_attr(base@, key, value))),
{
    let mut out = crate::standard::clone_pairs(base);
    let ghost o = over@;
    let mut i: usize = 0;
    assert forall|key: Seq<char>, value: Seq<char>| #[trigger] has_attr(out@, key, value) <==> (has_attr(o.subrange(0, 0), key, value) || (
        !has_key(o.subrange(0, 0), key) && has_attr(base@, key, value))) by {}
    while i < over.len()
        invariant
            0 <= i <= o.len(),
            o == over@,
            keys_sorted(o),
            keys_sorted(out@),
            forall|key: Seq<char>, value: Seq<char>| #[trigger] has_attr(out@, key, value) <==> (has_attr(o.subrange(0, i as int), key, value)
                || (!has_key(o.subrange(0, i as int), key) && has_attr(base@, key, value))),
        decreases o.len() - i,
    {
        let ghost sub = o.subrange(0, i as int);
        let ghost next = o.subrange(0, i + 1);
        let ghost k = o[i as int].0@;
        let ghost v = o[i as int].1@;
        proof {
            assert forall|key: Seq<char>, value: Seq<char>| #[trigger] has_attr(next, key, value) <==> (has_attr(sub, key, value) || (key == k && value == v)) by {
                if has_attr(next, key, value) {
                    let j = choose|j: int| 0 <= j < next.len() && (#[trigger] next[j]).0@ == key && next[j].1@ == value;
                    if j < i {
                        assert(sub[j] == next[j]);
                    }
                }
                if has_attr(sub, key, value) {
                    let j = choose|j: int| 0 <= j < sub.len() && (#[trigger] sub[j]).0@ == key && sub[j].1@ == value;
                    assert(next[j] == sub[j]);
                }
                if key == k && value == v {
                    assert(next[i as int] == o[i as int]);
                }
            }
            assert forall|key: Seq<char>| #[trigger] has_key(next, key) <==> (has_key(sub, key) || key == k) by {
                if has_key(next, key) {
                    let j = choose|j: int| 0 <= j < next.len() && (#[trigger] next[j]).0@ == key;
                    if j < i {
                        assert(sub[j] == next[j]);
                    }
                }
                if has_key(sub, key) {
                    let j = choose|j: int| 0 <= j < sub.len() && (#[trigger] sub[j]).0@ == key;
                    assert(next[j] == sub[j]);
                }
                if key == k {
                    assert(next[i as int] == o[i as int]);
                }
            }
            assert forall|value: Seq<char>| !has_attr(sub, k, value) by {
                if has_attr(sub, k, value) {
                    let j = choose|j: int| 0 <= j < sub.len() && (#[trigger] sub[j]).0@ == k && sub[j].1@ == value;
                    assert(sub[j] == o[j]);
                }
            }
            assert(!has_key(sub, k)) by {
                if has_key(sub, k) {
                    let j = choose|j: int| 0 <= j < sub.len() && (#[trigger] sub[j]).0@ == k;
                    assert(sub[j] == o[j]);
                }
            }
        }
        upsert_attr(&mut out, over[i].0.clone(), over[i].1.clone());
        proof {
            assert forall|key: Seq<char>, value: Seq<char>| #[trigger] has_attr(out@, key, value) <==> (has_attr(next, key, value) || (
                !has_key(next, key) && has_attr(base@, key, value))) by {
                if key == k {
                    if has_attr(next, key, value) {
                        assert(keys_sorted(next));
                        assert(has_attr(next, k, v));
                        crate::attrs::lemma_attr_unique(next, k, value, v);
                    }
                }
            }
        }
        i = i + 1;
    }
    assert(o.subrange(0, i as int) =~= o);
    out
}

/// The standard that knowledge `k` makes of `old`.
pub fn merge_knowledge(old: &Standard, k: &Knowledge) -> (r: Standard)
    requires
        old.wf(),
        k.wf(),
    ensures
        merged(*old, *k, r),
        r.wf(),
{
    let mut qartod = crate::standard::clone_suites(&old.qartod);
    let ghost start = qartod@;
    let mut i: usize = 0;
    while i < k.qc.len()
        invariant
            0 <= i <= k.qc@.len(),
            qartod@ == start + static_suites(k.qc@.subrange(0, i as int)),
        decreases k.qc@.len() - i,
    {
        let suite = TestSuite::Static(StaticQcTestSuite { slug: k.qc[i].0.clone(), qc: k.qc[i].1.clone() });
        qartod.push(suite);
        assert(static_suites(k.qc@.subrange(0, i + 1)) =~= static_suites(k.qc@.subrange(0, i as int)).push(suite));
        i = i + 1;
    }
    assert(k.qc@.subrange(0, i as int) =~= k.qc@);
    let r = Standard {
        name: old.name.clone(),
        long_name: clone_option(&k.long_name),
        unit: old.unit.clone(),
        description: old.description.clone(),
        aliases: clone_texts(&old.aliases),
        ioos_category: clone_option(&k.ioos_category),
        common_variable_names: concat_texts(&old.common_variable_names, &k.common_variable_names),
        related_standards: concat_texts(&old.related_standards, &k.related_standards),
        sibling_standards: concat_texts(&old.sibling_standards, &k.sibling_standards),
        extra_attrs: overlay_attrs(&old.extra_attrs, &k.extra_attrs),
        other_units: clone_texts(&k.other_units),
        comments: clone_option(&k.comments),
        qartod,
    };
    assert(r.aliases.deep_view() =~= old.aliases.deep_view());
    assert(r.other_units.deep_view() =~= k.other_units.deep_view());
    r
}


/// Two standards with the same name and aliases resolve the same keys.
proof fn lemma_resolves_same(a: Standard, b: Standard)
    requires
        a.name@ == b.name@,
        a.aliases.deep_view() == b.aliases.deep_view(),
    ensures
        forall|key: Seq<char>| resolves(a, key) == resolves(b, key),
{
}

/// Names are unique in a library whose keys are disjoint.
proof fn lemma_named_unique(stds: Seq<Standard>, name: Seq<char>, i: int, j: int)
    requires
        keys_disjoint(stds),
        named_at(stds, name, i),
        named_at(stds, name, j),
    ensures
        i == j,
{
    if i != j {
        assert(resolves(stds[i], name));
        assert(resolves(stds[j], name));
    }
}

fn index_of_name(stds: &Vec<Standard>, name: &str) -> (r: Option<usize>)
    ensures
        r matches Some(i) ==> named_at(stds@, name@, i as int),
        r is None ==> !exists|i: int| #[trigger] named_at(stds@, name@, i),
{
    let mut i: usize = 0;
    while i < stds.len()
        invariant
            0 <= i <= stds@.len(),
            forall|j: int| 0 <= j < i ==> !#[trigger] named_at(stds@, name@, j),
        decreases stds@.len() - i,
    {
        if text_eq(stds[i].name.as_str(), name) {
            return Some(i);
        }
        i = i + 1;
    }
    None
}

impl StandardsLibrary {
    pub open spec fn wf(&self) -> bool {
        standards_wf(self.standards@)
    }

    /// An empty library.
    pub fn new() -> (r: StandardsLibrary)
        ensures
            r.standards@.len() == 0,
            r.wf(),
    {
        StandardsLibrary { standards: Vec::new() }
    }

    /// Return a standard by name or alias: the first whose name is `key` or
    /// whose aliases hold it.
    pub fn get(&self, standard_name_or_alias: &str) -> (r: Result<Standard, LookupError>)
        ensures
            match r {
                Ok(s) => exists|i: int|
                    0 <= i < self.standards@.len() && first_resolving(self.standards@, standard_name_or_alias@) == Some(i)
                        && s@ == #[trigger] self.standards@[i]@,
                Err(_) => first_resolving(self.standards@, standard_name_or_alias@) is None,
            },
    {
        match position_of(&self.standards, standard_name_or_alias) {
            Some(i) => Ok(self.standards[i].clone()),
            None => Err(LookupError::NotFound),
        }
    }

    /// Merge one knowledge record into the standard it names; a record
    /// whose name is not in the library changes nothing.
    pub fn apply_knowledge_record(&mut self, k: &Knowledge)
        requires
            old(self).wf(),
            k.wf(),
        ensures
            final(self).wf(),
            applied(old(self).standards@, *k, final(self).standards@),
    {
        let ghost before = self.standards@;
        match index_of_name(&self.standards, k.name.as_str()) {
            Some(i) => {
                let merged_standard = merge_knowledge(&self.standards[i], k);
                self.standards.set(i, merged_standard);
                proof {
                    let after = self.standards@;
                    assert forall|j: int| #[trigger] named_at(before, k.name@, j) implies j == i by {
                        lemma_named_unique(before, k.name@, i as int, j);
                    }
                    lemma_resolves_same(before[i as int], after[i as int]);
                    assert forall|a: int, b: int, key: Seq<char>|
                        0 <= a < after.len() && 0 <= b < after.len() && a != b && #[trigger] resolves(after[a], key) implies !#[trigger] resolves(
                        after[b],
                        key,
                    ) by {
                        assert(resolves(before[a], key));
                        assert(resolves(after[b], key) == resolves(before[b], key));
                    }
                    assert forall|j: int| 0 <= j < after.len() implies (#[trigger] after[j]).wf() by {
                        if j != i {
                            assert(after[j] == before[j]);
                        }
                    }
                }
            },
            None => {},
        }
    }

    /// A filter over every standard of the library.
    pub fn filter(&self) -> (r: StandardsFilter)
        ensures
            views(r.standards@) == views(self.standards@),
    {
        let mut standards: Vec<Standard> = Vec::new();
        let mut i: usize = 0;
        while i < self.standards.len()
            invariant
                0 <= i <= self.standards@.len(),
                views(standards@) == views(self.standards@).subrange(0, i as int),
            decreases self.standards@.len() - i,
        {
            let c = self.standards[i].clone();
            let ghost before = standards@;
            standards.push(c);
            assert(views(standards@) =~= views(before).push(self.standards@[i as int]@));
            assert(views(standards@) =~= views(self.standards@).subrange(0, i + 1));
            i = i + 1;
        }
        assert(views(self.standards@).subrange(0, i as int) =~= views(self.standards@));
        StandardsFilter { standards }
    }

    /// Attach the built-in test suites: each replaces the suites of the
    /// standard it is registered for. Other standards are left as they are.
    pub fn load_test_suites(&mut self)
        requires
            old(self).wf(),
        ensures
            final(self).wf(),
            final(self).standards@.len() == old(self).standards@.len(),
            forall|j: int| 0 <= j < old(self).standards@.len() ==> (#[trigger] final(self).standards@[j])@ == (if old(self).standards@[j].name@
                == "sea_surface_height_above_geopotential_datum"@ {
                StandardView {
                    qartod: seq![TestSuite::GulfOfMaine, TestSuite::LongIslandSound],
                    ..old(self).standards@[j]@
                }
            } else {
                old(self).standards@[j]@
            }),
    {
        let suites = test_suites();
        let ghost before = self.standards@;
        let entry = &suites[0];
        match index_of_name(&self.standards, entry.0.as_str()) {
            Some(i) => {
                let mut s = self.standards[i].clone();
                s.qartod = clone_suites(&entry.1);
                self.standards.set(i, s);
                proof {
                    let after = self.standards@;
                    lemma_resolves_same(before[i as int], after[i as int]);
                    assert forall|j: int| 0 <= j < before.len() && j != i implies before[j].name@ != entry.0@ by {
                        if before[j].name@ == entry.0@ {
                            lemma_named_unique(before, entry.0@, i as int, j);
                        }
                    }
                    assert forall|a: int, b: int, key: Seq<char>|
                        0 <= a < after.len() && 0 <= b < after.len() && a != b && #[trigger] resolves(after[a], key) implies !#[trigger] resolves(
                        after[b],
                        key,
                    ) by {
                        assert(resolves(before[a], key));
                        assert(resolves(after[b], key) == resolves(before[b], key));
                    }
                    assert forall|j: int| 0 <= j < after.len() implies (#[trigger] after[j]).wf() by {
                        if j != i {
                            assert(after[j] == before[j]);
                        }
                    }
                    assert forall|j: int| 0 <= j < before.len() implies (#[trigger] after[j])@ == (if before[j].name@
                        == "sea_surface_height_above_geopotential_datum"@ {
                        StandardView { qartod: seq![TestSuite::GulfOfMaine, TestSuite::LongIslandSound], ..before[j]@ }
                    } else {
                        before[j]@
                    }) by {
                        if j == i {
                            assert(after[j]@ =~= StandardView { qartod: seq![TestSuite::GulfOfMaine, TestSuite::LongIslandSound], ..before[j]@ });
                        } else {
                            assert(after[j] == before[j]);
                        }
                    }
                }
            },
            None => {
                proof {
                    assert forall|j: int| 0 <= j < before.len() implies before[j].name@ != entry.0@ by {
                        assert(!named_at(before, entry.0@, j));
                    }
                }
            },
        }
    }

    /// Every non-empty IOOS category in the library, each once.
    pub fn known_ioos_categories(&self) -> (r: Vec<String>)
        ensures
            r.deep_view().no_duplicates(),
            forall|c: Seq<char>| r.deep_view().contains(c) <==> exists|j: int|
                0 <= j < self.standards@.len() && present(#[trigger] self.standards@[j].ioos_category) && self.standards@[j].ioos_category->0@ == c,
    {
        let mut out: Vec<String> = Vec::new();
        let mut i: usize = 0;
        while i < self.standards.len()
            invariant
                0 <= i <= self.standards@.len(),
                out.deep_view().no_duplicates(),
                forall|c: Seq<char>| out.deep_view().contains(c) <==> exists|j: int|
                    0 <= j < i && present(#[trigger] self.standards@[j].ioos_category) && self.standards@[j].ioos_category->0@ == c,
            decreases self.standards@.len() - i,
        {
            if let Some(c) = &self.standards[i].ioos_category {
                if !c.as_str().is_empty() {
                    let mut seen = false;
                    let mut k: usize = 0;
                    while k < out.len() && !seen
                        invariant
                            0 <= k <= out@.len(),
                            seen ==> out.deep_view().contains(c@),
                            !seen ==> forall|m: int| 0 <= m < k ==> (#[trigger] out@[m])@ != c@,
                        decreases out@.len() - k + (if seen { 0int } else { 1int }),
                    {
                        if text_eq(out[k].as_str(), c.as_str()) {
                            assert(out.deep_view()[k as int] == c@);
                            seen = true;
                        } else {
                            k = k + 1;
                        }
                    }
                    if !seen {
                        let ghost before = out.deep_view();
                        proof {
                            assert forall|m: int| 0 <= m < before.len() implies before[m] != c@ by {
                                assert(before[m] == out@[m]@);
                            }
                        }
                        out.push(c.clone());
                        assert(out.deep_view() =~= before.push(c@));
                        proof {
                            assert forall|x: int, y: int| 0 <= x < y < out.deep_view().len() implies out.deep_view()[x] != out.deep_view()[y] by {
                                if y < before.len() {
                                    assert(before.no_duplicates());
                                }
                            }
                            assert forall|cc: Seq<char>| out.deep_view().contains(cc) <==> exists|j: int|
                                0 <= j < i + 1 && present(#[trigger] self.standards@[j].ioos_category) && self.standards@[j].ioos_category->0@ == cc by {
                                if out.deep_view().contains(cc) && cc != c@ {
                                    let m = choose|m: int| 0 <= m < out.deep_view().len() && out.deep_view()[m] == cc;
                                    assert(before[m] == cc);
                                    assert(before.contains(cc));
                                }
                                if cc == c@ {
                                    assert(out.deep_view()[before.len() as int] == cc);
                                }
                                if exists|j: int| 0 <= j < i + 1 && present(#[trigger] self.standards@[j].ioos_category) && self.standards@[j].ioos_category->0@ == cc {
                                    let j = choose|j: int| 0 <= j < i + 1 && present(#[trigger] self.standards@[j].ioos_category) && self.standards@[j].ioos_category->0@ == cc;
                                    if j < i {
                                        assert(before.contains(cc));
                                        let m = choose|m: int| 0 <= m < before.len() && before[m] == cc;
                                        assert(out.deep_view()[m] == cc);
                                    }
                                }
                            }
                        }
                    } else {
                        proof {
                            assert forall|cc: Seq<char>| out.deep_view().contains(cc) <==> exists|j: int|
                                0 <= j < i + 1 && present(#[trigger] self.standards@[j].ioos_category) && self.standards@[j].ioos_category->0@ == cc by {
                                if exists|j: int| 0 <= j < i + 1 && present(#[trigger] self.standards@[j].ioos_category) && self.standards@[j].ioos_category->0@ == cc {
                                    let j = choose|j: int| 0 <= j < i + 1 && present(#[trigger] self.standards@[j].ioos_category) && self.standards@[j].ioos_category->0@ == cc;
                                }
                            }
                        }
                    }
                }
            }
            i = i + 1;
        }
        out
    }

    /// Update the loaded standards with knowledge, record by record.
    pub fn apply_knowledge(&mut self, knowledge: Vec<Knowledge>)
        requires
            old(self).wf(),
            forall|i: int| 0 <= i < knowledge@.len() ==> (#[trigger] knowledge@[i]).wf(),
        ensures
            final(self).wf(),
            exists|states: Seq<Seq<Standard>>|
                {
                    &&& states.len() == knowledge@.len() + 1
                    &&& states[0] == old(self).standards@
                    &&& states.last() == final(self).standards@
                    &&& forall|i: int| 0 <= i < knowledge@.len() ==> applied(#[trigger] states[i], knowledge@[i], states[i + 1])
                },
    {
        let ghost mut states: Seq<Seq<Standard>> = seq![self.standards@];
        let mut i: usize = 0;
        while i < knowledge.len()
            invariant
                0 <= i <= knowledge@.len(),
                self.wf(),
                forall|j: int| 0 <= j < knowledge@.len() ==> (#[trigger] knowledge@[j]).wf(),
                states.len() == i + 1,
                states[0] == old(self).standards@,
                states.last() == self.standards@,
                forall|j: int| 0 <= j < i ==> applied(#[trigger] states[j], knowledge@[j], states[j + 1]),
            decreases knowledge@.len() - i,
        {
            self.apply_knowledge_record(&knowledge[i]);
            proof {
                let prev = states;
                states = states.push(self.standards@);
                assert forall|j: int| 0 <= j < i + 1 implies applied(#[trigger] states[j], knowledge@[j], states[j + 1]) by {
                    if j < i {
                        assert(states[j] == prev[j] && states[j + 1] == prev[j + 1]);
                    }
                }
            }
            i = i + 1;
        }
    }
}


/// Looking up any alias of a standard finds that standard, as looking up
/// its name does.
pub proof fn lemma_alias_finds_standard(lib: StandardsLibrary, i: int, alias: Seq<char>)
    requires
        lib.wf(),
        0 <= i < lib.standards@.len(),
        lib.standards@[i].aliases.deep_view().contains(alias),
    ensures
        first_resolving(lib.standards@, alias) == Some(i),
        first_resolving(lib.standards@, lib.standards@[i].name@) == Some(i),
{
    let stds = lib.standards@;
    lemma_first_resolving(stds, alias);
    lemma_first_resolving(stds, stds[i].name@);
    assert(resolves(stds[i], alias));
    assert(resolves(stds[i], stds[i].name@));
    if let Some(j) = first_resolving(stds, alias) {
        if j != i {
            assert(resolves(stds[j], alias));
        }
    }
    if let Some(j) = first_resolving(stds, stds[i].name@) {
        if j != i {
            assert(resolves(stds[j], stds[i].name@));
        }
    }
}

/// Knowledge for a name that no standard has leaves every standard as it
/// was.
pub proof fn lemma_unknown_knowledge_changes_nothing(old: Seq<Standard>, k: Knowledge, new: Seq<Standard>)
    requires
        applied(old, k, new),
        forall|i: int| 0 <= i < old.len() ==> (#[trigger] old[i]).name@ != k.name@,
    ensures
        views(new) == views(old),
{
    assert(!exists|i: int| #[trigger] named_at(old, k.name@, i));
    assert(views(new) =~= views(old));
}

/// Applying knowledge keeps each standard's name, unit, description and
/// aliases.
pub proof fn lemma_knowledge_keeps_canonical_fields(old: Seq<Standard>, k: Knowledge, new: Seq<Standard>)
    requires
        applied(old, k, new),
    ensures
        new.len() == old.len(),
        forall|j: int|
            0 <= j < old.len() ==> (#[trigger] new[j]).name@ == old[j].name@ && new[j].unit@ == old[j].unit@
                && new[j].description@ == old[j].description@ && new[j].aliases.deep_view() == old[j].aliases.deep_view(),
{
    assert forall|j: int| 0 <= j < old.len() implies (#[trigger] new[j]).name@ == old[j].name@ && new[j].unit@ == old[j].unit@
        && new[j].description@ == old[j].description@ && new[j].aliases.deep_view() == old[j].aliases.deep_view() by {
        assert(new[j]@.name == old[j]@.name);
    }
}

/// Applying a record that adds to no list a second time changes nothing:
/// its long name, category, comments, other units and extra attributes are
/// already in place.
pub proof fn lemma_knowledge_idempotent(l0: Seq<Standard>, k: Knowledge, l1: Seq<Standard>, l2: Seq<Standard>)
    requires
        standards_wf(l0),
        standards_wf(l1),
        k.wf(),
        k.common_variable_names@.len() == 0,
        k.related_standards@.len() == 0,
        k.sibling_standards@.len() == 0,
        k.qc@.len() == 0,
        applied(l0, k, l1),
        applied(l1, k, l2),
    ensures
        views(l2) == views(l1),
{
    lemma_knowledge_keeps_canonical_fields(l0, k, l1);
    if exists|i: int| #[trigger] named_at(l0, k.name@, i) {
        let i = choose|i: int| #[trigger] named_at(l0, k.name@, i);
        assert(named_at(l1, k.name@, i));
        let i1 = choose|i: int| #[trigger] named_at(l1, k.name@, i);
        lemma_named_unique(l1, k.name@, i, i1);
        let a = l1[i];
        let b = l2[i];
        assert(merged(l0[i], k, a));
        assert(merged(a, k, b));
        assert(k.common_variable_names.deep_view() =~= Seq::<Seq<char>>::empty());
        assert(k.related_standards.deep_view() =~= Seq::<Seq<char>>::empty());
        assert(k.sibling_standards.deep_view() =~= Seq::<Seq<char>>::empty());
        assert(b.common_variable_names.deep_view() =~= a.common_variable_names.deep_view());
        assert(b.related_standards.deep_view() =~= a.related_standards.deep_view());
        assert(b.sibling_standards.deep_view() =~= a.sibling_standards.deep_view());
        assert(static_suites(k.qc@) =~= Seq::<TestSuite>::empty());
        assert(b.qartod@ =~= a.qartod@);
        assert forall|key: Seq<char>, value: Seq<char>| #[trigger] has_attr(b.extra_attrs@, key, value) <==> has_attr(
            a.extra_attrs@,
            key,
            value,
        ) by {}
        lemma_sorted_attrs_equal(b.extra_attrs@, a.extra_attrs@);
        assert(b@ == a@);
    } else {
        assert forall|i: int| !#[trigger] named_at(l1, k.name@, i) by {
            if named_at(l1, k.name@, i) {
                assert(named_at(l0, k.name@, i));
            }
        }
    }
    assert(views(l2) =~= views(l1));
}

/// Each application of a record grows the standard's common variable
/// names, related and sibling standards and suites by the record's own,
/// while its other units are replaced by the record's.
pub proof fn lemma_knowledge_appends_lists(old: Seq<Standard>, k: Knowledge, new: Seq<Standard>, i: int)
    requires
        standards_wf(old),
        applied(old, k, new),
        named_at(old, k.name@, i),
    ensures
        new[i].common_variable_names@.len() == old[i].common_variable_names@.len() + k.common_variable_names@.len(),
        new[i].related_standards@.len() == old[i].related_standards@.len() + k.related_standards@.len(),
        new[i].sibling_standards@.len() == old[i].sibling_standards@.len() + k.sibling_standards@.len(),
        new[i].qartod@.len() == old[i].qartod@.len() + k.qc@.len(),
        new[i].other_units@.len() == k.other_units@.len(),
{
    let c = choose|j: int| #[trigger] named_at(old, k.name@, j);
    lemma_named_unique(old, k.name@, i, c);
    assert(new[i].common_variable_names.deep_view().len() == new[i].common_variable_names@.len());
    assert(old[i].common_variable_names.deep_view().len() == old[i].common_variable_names@.len());
    assert(k.common_variable_names.deep_view().len() == k.common_variable_names@.len());
    assert(new[i].related_standards.deep_view().len() == new[i].related_standards@.len());
    assert(old[i].related_standards.deep_view().len() == old[i].related_standards@.len());
    assert(k.related_standards.deep_view().len() == k.related_standards@.len());
    assert(new[i].sibling_standards.deep_view().len() == new[i].sibling_standards@.len());
    assert(old[i].sibling_standards.deep_view().len() == old[i].sibling_standards@.len());
    assert(k.sibling_standards.deep_view().len() == k.sibling_standards@.len());
    assert(new[i].other_units.deep_view().len() == new[i].other_units@.len());
    assert(k.other_units.deep_view().len() == k.other_units@.len());
}

} // verus!
