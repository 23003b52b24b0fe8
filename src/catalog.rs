//! The canonical catalog of standard names, and the standards it gives.

use vstd::prelude::*;

use crate::attrs::keys_sorted;
use crate::library::{named_at, resolves, standard_resolves, StandardsLibrary};
use crate::standard::Standard;
use crate::text::text_eq;

verus! {

/// Unit and description of a canonical name.
#[derive(Debug)]
pub struct CfStandard {
    pub description: String,
    pub unit: String,
}

/// The canonical catalog: each alias with the name it stands for, and each
/// name with its unit and description.
#[derive(Debug)]
pub struct CfCatalog {
    pub aliases: Vec<(String, String)>,
    pub standard_names: Vec<(String, CfStandard)>,
}

/// The aliases that stand for `name`, in catalog order.
pub open spec fn aliases_of(aliases: Seq<(String, String)>, name: Seq<char>) -> Seq<Seq<char>> {
    aliases.filter(|p: (String, String)| p.1@ == name).map_values(|p: (String, String)| p.0@)
}

/// The aliases that stand for `name`.
pub fn aliases_for(catalog: &CfCatalog, name: &str) -> (r: Vec<String>)
    ensures
        r.deep_view() == aliases_of(catalog.aliases@, name@),
{
    let ghost a = catalog.aliases@;
    let mut out: Vec<String> = Vec::new();
    let mut i: usize = 0;
    proof {
        reveal(Seq::filter);
        assert(a.subrange(0, 0) =~= Seq::<(String, String)>::empty());
        assert(out.deep_view() =~= aliases_of(a.subrange(0, 0), name@));
    }
    while i < catalog.aliases.len()
        invariant
            0 <= i <= a.len(),
            a == catalog.aliases@,
            out.deep_view() == aliases_of(a.subrange(0, i as int), name@),
        decreases a.len() - i,
    {
        proof {
            reveal(Seq::filter);
            assert(a.subrange(0, i + 1).drop_last() =~= a.subrange(0, i as int));
        }
        if text_eq(catalog.aliases[i].1.as_str(), name) {
            let ghost before = out.deep_view();
            out.push(catalog.aliases[i].0.clone());
            assert(out.deep_view() =~= before.push(a[i as int].0@));
            assert(out.deep_view() =~= aliases_of(a.subrange(0, i + 1), name@));
        } else {
            assert(out.deep_view() =~= aliases_of(a.subrange(0, i + 1), name@));
        }
        i = i + 1;
    }
    assert(a.subrange(0, i as int) =~= a);
    out
}

/// Some group of `groups` is for `name`.
pub open spec fn has_group(groups: Seq<(String, Vec<String>)>, name: Seq<char>) -> bool {
    exists|x: int| 0 <= x < groups.len() && (#[trigger] groups[x]).0@ == name
}

/// Every canonical name that has aliases, with its aliases, in the order
/// the names first appear among the aliases.
pub fn aliases_by_standard_name(catalog: &CfCatalog) -> (r: Vec<(String, Vec<String>)>)
    ensures
        forall|i: int| 0 <= i < r@.len() ==> (#[trigger] r@[i]).1.deep_view() == aliases_of(catalog.aliases@, r@[i].0@),
        forall|i: int| 0 <= i < r@.len() ==> (#[trigger] r@[i]).1@.len() > 0,
        forall|i: int, j: int| 0 <= i < j < r@.len() ==> (#[trigger] r@[i]).0@ != (#[trigger] r@[j]).0@,
        forall|k: int| 0 <= k < catalog.aliases@.len() ==> has_group(r@, (#[trigger] catalog.aliases@[k]).1@),
{
    let mut out: Vec<(String, Vec<String>)> = Vec::new();
    let mut k: usize = 0;
    while k < catalog.aliases.len()
        invariant
            0 <= k <= catalog.aliases@.len(),
            forall|i: int| 0 <= i < out@.len() ==> (#[trigger] out@[i]).1.deep_view() == aliases_of(catalog.aliases@, out@[i].0@),
            forall|i: int| 0 <= i < out@.len() ==> (#[trigger] out@[i]).1@.len() > 0,
            forall|i: int, j: int| 0 <= i < j < out@.len() ==> (#[trigger] out@[i]).0@ != (#[trigger] out@[j]).0@,
            forall|m: int| 0 <= m < k ==> has_group(out@, (#[trigger] catalog.aliases@[m]).1@),
        decreases catalog.aliases@.len() - k,
    {
        let name = &catalog.aliases[k].1;
        let mut seen = false;
        let mut i: usize = 0;
        while i < out.len() && !seen
            invariant
                0 <= i <= out@.len(),
                seen ==> has_group(out@, name@),
                !seen ==> forall|x: int| 0 <= x < i ==> (#[trigger] out@[x]).0@ != name@,
            decreases out@.len() - i + (if seen { 0int } else { 1int }),
        {
            if text_eq(out[i].0.as_str(), name.as_str()) {
                seen = true;
            } else {
                i = i + 1;
            }
        }
        if !seen {
            let group = aliases_for(catalog, name.as_str());
            proof {
                broadcast use vstd::seq_lib::group_filter_ensures;

                let a = catalog.aliases@;
                let p = |q: (String, String)| q.1@ == name@;
                assert(p(a[k as int]));
                assert(a.filter(p).contains(a[k as int]));
                assert(group.deep_view().len() == a.filter(p).len());
                assert(group.deep_view().len() == group@.len());
            }
            let ghost before = out@;
            out.push((name.clone(), group));
            proof {
                assert(out@[before.len() as int].0@ == name@);
                assert forall|m: int| 0 <= m < k + 1 implies has_group(out@, (#[trigger] catalog.aliases@[m]).1@) by {
                    if m < k {
                        assert(has_group(before, catalog.aliases@[m].1@));
                        let x = choose|x: int| 0 <= x < before.len() && (#[trigger] before[x]).0@ == catalog.aliases@[m].1@;
                        assert(out@[x] == before[x]);
                    }
                }
            }
        }
        k = k + 1;
    }
    out
}

impl Standard {
    /// A standard as the catalog gives it, with no knowledge yet.
    pub open spec fn is_canonical(&self, name: Seq<char>, unit: Seq<char>, description: Seq<char>, aliases: Seq<Seq<char>>) -> bool {
        &&& self.name@ == name
        &&& self.unit@ == unit
        &&& self.description@ == description
        &&& self.aliases.deep_view() == aliases
        &&& self.long_name is None
        &&& self.ioos_category is None
        &&& self.comments is None
        &&& self.common_variable_names@.len() == 0
        &&& self.related_standards@.len() == 0
        &&& self.sibling_standards@.len() == 0
        &&& self.extra_attrs@.len() == 0
        &&& self.other_units@.len() == 0
        &&& self.qartod@.len() == 0
    }
}

/// The standards of the catalog, one for each canonical name, in catalog
/// order, each with the aliases that stand for it.
pub fn cf_standards(catalog: &CfCatalog) -> (r: Vec<Standard>)
    ensures
        r@.len() == catalog.standard_names@.len(),
        forall|i: int| 0 <= i < r@.len() ==> (#[trigger] r@[i]).is_canonical(
            catalog.standard_names@[i].0@,
            catalog.standard_names@[i].1.unit@,
            catalog.standard_names@[i].1.description@,
            aliases_of(catalog.aliases@, catalog.standard_names@[i].0@),
        ) && r@[i].wf(),
{
    let mut out: Vec<Standard> = Vec::new();
    let mut i: usize = 0;
    while i < catalog.standard_names.len()
        invariant
            0 <= i <= catalog.standard_names@.len(),
            out@.len() == i,
            forall|j: int| 0 <= j < i ==> (#[trigger] out@[j]).is_canonical(
                catalog.standard_names@[j].0@,
                catalog.standard_names@[j].1.unit@,
                catalog.standard_names@[j].1.description@,
                aliases_of(catalog.aliases@, catalog.standard_names@[j].0@),
            ) && out@[j].wf(),
        decreases catalog.standard_names@.len() - i,
    {
        let entry = &catalog.standard_names[i];
        let aliases = aliases_for(catalog, entry.0.as_str());
        let s = Standard {
            name: entry.0.clone(),
            long_name: None,
            unit: entry.1.unit.clone(),
            description: entry.1.description.clone(),
            aliases,
            ioos_category: None,
            common_variable_names: Vec::new(),
            related_standards: Vec::new(),
            sibling_standards: Vec::new(),
            extra_attrs: Vec::new(),
            other_units: Vec::new(),
            comments: None,
            qartod: Vec::new(),
        };
        assert(keys_sorted(s.extra_attrs@));
        out.push(s);
        i = i + 1;
    }
    out
}

proof fn lemma_canonical_copy(a: Standard, b: Standard)
    requires
        a@ == b@,
        a.extra_attrs@ == b.extra_attrs@,
    ensures
        forall|n: Seq<char>, u: Seq<char>, d: Seq<char>, al: Seq<Seq<char>>|
            #[trigger] b.is_canonical(n, u, d, al) ==> a.is_canonical(n, u, d, al),
{
    assert(a.common_variable_names.deep_view().len() == a.common_variable_names@.len());
    assert(b.common_variable_names.deep_view().len() == b.common_variable_names@.len());
    assert(a.related_standards.deep_view().len() == a.related_standards@.len());
    assert(b.related_standards.deep_view().len() == b.related_standards@.len());
    assert(a.sibling_standards.deep_view().len() == a.sibling_standards@.len());
    assert(b.sibling_standards.deep_view().len() == b.sibling_standards@.len());
    assert(a.other_units.deep_view().len() == a.other_units@.len());
    assert(b.other_units.deep_view().len() == b.other_units@.len());
}

/// No key resolves both to `s` and to a standard of `stds` with another name.
pub open spec fn compatible(stds: Seq<Standard>, s: Standard) -> bool {
    forall|j: int, key: Seq<char>|
        0 <= j < stds.len() && stds[j].name@ != s.name@ && #[trigger] resolves(stds[j], key) ==> !#[trigger] resolves(s, key)
}

/// `new` is `old` with `s` added: it replaces the standard of the same name,
/// or comes last; a standard that would share a name or alias with another
/// is left out.
pub open spec fn inserted(old: Seq<Standard>, s: Standard, new: Seq<Standard>) -> bool {
    if !compatible(old, s) {
        new == old
    } else if exists|i: int| #[trigger] named_at(old, s.name@, i) {
        new == old.update(choose|i: int| #[trigger] named_at(old, s.name@, i), s)
    } else {
        new == old.push(s)
    }
}

fn is_compatible(stds: &Vec<Standard>, s: &Standard) -> (r: bool)
    ensures
        r == compatible(stds@, *s),
{
    let mut j: usize = 0;
    while j < stds.len()
        invariant
            0 <= j <= stds@.len(),
            forall|x: int, key: Seq<char>|
                0 <= x < j && stds@[x].name@ != s.name@ && #[trigger] resolves(stds@[x], key) ==> !#[trigger] resolves(*s, key),
        decreases stds@.len() - j,
    {
        let other = &stds[j];
        if !text_eq(other.name.as_str(), s.name.as_str()) {
            if standard_resolves(other, s.name.as_str()) {
                assert(resolves(*s, s.name@));
                assert(resolves(stds@[j as int], s.name@));
                return false;
            }
            let mut k: usize = 0;
            while k < s.aliases.len()
                invariant
                    0 <= k <= s.aliases@.len(),
                    j < stds@.len(),
                    other == stds@[j as int],
                    !resolves(*other, s.name@),
                    forall|m: int| 0 <= m < k ==> !resolves(*other, (#[trigger] s.aliases@[m])@),
                decreases s.aliases@.len() - k,
            {
                if standard_resolves(other, s.aliases[k].as_str()) {
                    assert(s.aliases.deep_view()[k as int] == s.aliases@[k as int]@);
                    assert(resolves(*s, s.aliases@[k as int]@));
                    assert(resolves(stds@[j as int], s.aliases@[k as int]@));
                    return false;
                }
                k = k + 1;
            }
            assert forall|key: Seq<char>| #[trigger] resolves(*other, key) implies !resolves(*s, key) by {
                if resolves(*s, key) && key != s.name@ {
                    let m = choose|m: int| 0 <= m < s.aliases.deep_view().len() && s.aliases.deep_view()[m] == key;
                    assert(s.aliases.deep_view()[m] == s.aliases@[m]@);
                }
            }
        }
        j = j + 1;
    }
    true
}

impl StandardsLibrary {
    /// Add one standard, keeping names and aliases unambiguous: it replaces
    /// the standard of the same name, or is added; it is refused when one
    /// of its keys already belongs to another standard.
    pub fn insert_standard(&mut self, s: Standard) -> (r: bool)
        requires
            old(self).wf(),
            s.wf(),
        ensures
            final(self).wf(),
            r == compatible(old(self).standards@, s),
            inserted(old(self).standards@, s, final(self).standards@),
    {
        let ghost before = self.standards@;
        if !is_compatible(&self.standards, &s) {
            return false;
        }
        let mut i: usize = 0;
        while i < self.standards.len() && !text_eq(self.standards[i].name.as_str(), s.name.as_str())
            invariant
                0 <= i <= before.len(),
                self.standards@ == before,
                forall|j: int| 0 <= j < i ==> !#[trigger] named_at(before, s.name@, j),
            decreases before.len() - i,
        {
            i = i + 1;
        }
        let ghost sv = s;
        if i < self.standards.len() {
            self.standards.set(i, s);
            proof {
                assert(named_at(before, sv.name@, i as int));
                assert forall|j: int| #[trigger] named_at(before, sv.name@, j) implies j == i by {
                    if j != i {
                        assert(resolves(before[j], sv.name@));
                        assert(resolves(before[i as int], sv.name@));
                    }
                }
                let after = self.standards@;
                assert forall|a: int, b: int, key: Seq<char>|
                    0 <= a < after.len() && 0 <= b < after.len() && a != b && #[trigger] resolves(after[a], key) implies !#[trigger] resolves(
                    after[b],
                    key,
                ) by {
                    if a == i {
                        assert(!named_at(before, sv.name@, b));
                        if resolves(before[b], key) {
                            assert(!resolves(sv, key));
                        }
                    } else if b == i {
                        assert(!named_at(before, sv.name@, a));
                        if resolves(before[a], key) {
                            assert(!resolves(sv, key));
                        }
                    } else {
                        assert(after[a] == before[a] && after[b] == before[b]);
                    }
                }
            }
        } else {
            self.standards.push(s);
            proof {
                let after = self.standards@;
                let n = before.len() as int;
                assert forall|a: int, b: int, key: Seq<char>|
                    0 <= a < after.len() && 0 <= b < after.len() && a != b && #[trigger] resolves(after[a], key) implies !#[trigger] resolves(
                    after[b],
                    key,
                ) by {
                    if a == n {
                        assert(!named_at(before, sv.name@, b));
                        if resolves(before[b], key) {
                            assert(!resolves(sv, key));
                        }
                    } else if b == n {
                        assert(!named_at(before, sv.name@, a));
                        if resolves(before[a], key) {
                            assert(!resolves(sv, key));
                        }
                    } else {
                        assert(after[a] == before[a] && after[b] == before[b]);
                    }
                }
            }
        }
        true
    }

    /// Load every standard of the catalog, in catalog order, by
    /// `insert_standard`.
    pub fn load_cf_standards(&mut self, catalog: &CfCatalog)
        requires
            old(self).wf(),
        ensures
            final(self).wf(),
            exists|states: Seq<Seq<Standard>>, added: Seq<Standard>|
                #![trigger states.len(), added.len()]
                {
                    &&& states.len() == catalog.standard_names@.len() + 1
                    &&& added.len() == catalog.standard_names@.len()
                    &&& states[0] == old(self).standards@
                    &&& states.last() == final(self).standards@
                    &&& forall|i: int| 0 <= i < added.len() ==> (#[trigger] added[i]).is_canonical(
                        catalog.standard_names@[i].0@,
                        catalog.standard_names@[i].1.unit@,
                        catalog.standard_names@[i].1.description@,
                        aliases_of(catalog.aliases@, catalog.standard_names@[i].0@),
                    ) && inserted(states[i], added[i], states[i + 1])
                },
    {
        let standards = cf_standards(catalog);
        let ghost mut states: Seq<Seq<Standard>> = seq![self.standards@];
        let ghost mut added: Seq<Standard> = Seq::empty();
        let mut i: usize = 0;
        while i < standards.len()
            invariant
                0 <= i <= standards@.len(),
                standards@.len() == catalog.standard_names@.len(),
                forall|j: int| 0 <= j < standards@.len() ==> (#[trigger] standards@[j]).is_canonical(
                    catalog.standard_names@[j].0@,
                    catalog.standard_names@[j].1.unit@,
                    catalog.standard_names@[j].1.description@,
                    aliases_of(catalog.aliases@, catalog.standard_names@[j].0@),
                ) && standards@[j].wf(),
                self.wf(),
                states.len() == i + 1,
                added.len() == i,
                states[0] == old(self).standards@,
                states.last() == self.standards@,
                forall|j: int| 0 <= j < i ==> (#[trigger] added[j]).is_canonical(
                    catalog.standard_names@[j].0@,
                    catalog.standard_names@[j].1.unit@,
                    catalog.standard_names@[j].1.description@,
                    aliases_of(catalog.aliases@, catalog.standard_names@[j].0@),
                ) && inserted(states[j], added[j], states[j + 1]),
            decreases standards@.len() - i,
        {
            let s = standards[i].clone();
            let ghost sv = s;
            let ghost prev_states = states;
            let ghost prev_added = added;
            self.insert_standard(s);
            proof {
                states = states.push(self.standards@);
                added = added.push(sv);
                assert forall|j: int| 0 <= j < i + 1 implies (#[trigger] added[j]).is_canonical(
                    catalog.standard_names@[j].0@,
                    catalog.standard_names@[j].1.unit@,
                    catalog.standard_names@[j].1.description@,
                    aliases_of(catalog.aliases@, catalog.standard_names@[j].0@),
                ) && inserted(states[j], added[j], states[j + 1]) by {
                    if j < i {
                        assert(added[j] == prev_added[j] && states[j] == prev_states[j] && states[j + 1] == prev_states[j + 1]);
                    } else {
                        lemma_canonical_copy(sv, standards@[j]);
                        assert(states[j] == prev_states.last());
                    }
                }
            }
            i = i + 1;
        }
    }
}

} // verus!
