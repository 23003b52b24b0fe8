//! The merged record of one standard: canonical fields from the catalog,
//! knowledge overlay fields, and attached QC suites.

use vstd::prelude::*;

use crate::attrs::{has_attr, keys_sorted, lemma_attr_unique, pairs_view, upsert_attr};
use crate::qartod::TestSuite;
use crate::text::{join, join_texts, contains_text, lemma_nonempty_texts_add, lower_of, lowercase, nonempty_texts, push_nonempty, push_nonempty_all, text_contains};

verus! {

/// One standard with everything known about it.
#[derive(Debug)]
pub struct Standard {
    pub name: String,
    /// Human readable name
    pub long_name: Option<String>,
    pub unit: String,
    pub description: String,
    pub aliases: Vec<String>,
    /// Usual IOOS category for the standard
    pub ioos_category: Option<String>,
    /// Common variable names in a dataset
    pub common_variable_names: Vec<String>,
    /// Other standards to consider
    pub related_standards: Vec<String>,
    /// Standards that are usually used together
    pub sibling_standards: Vec<String>,
    /// Extra attributes that are usually included in Xarray or NetCDF
    /// metadata, sorted by key
    pub extra_attrs: Vec<(String, String)>,
    /// Other units that may be seen
    pub other_units: Vec<String>,
    /// Community comments on standard usage
    pub comments: Option<String>,
    /// QARTOD test suites
    pub qartod: Vec<TestSuite>,
}

pub fn clone_texts(v: &Vec<String>) -> (r: Vec<String>)
    ensures
        r@ == v@,
{
    let r = v.clone();
    assert(r@ =~= v@);
    r
}

pub fn clone_text_option(o: &Option<String>) -> (r: Option<String>)
    ensures
        r == *o,
{
    match o {
        Some(s) => Some(s.clone()),
        None => None,
    }
}

pub fn clone_pairs(v: &Vec<(String, String)>) -> (r: Vec<(String, String)>)
    ensures
        r@ == v@,
{
    let mut r: Vec<(String, String)> = Vec::new();
    let mut i: usize = 0;
    while i < v.len()
        invariant
            0 <= i <= v@.len(),
            r@ == v@.subrange(0, i as int),
        decreases v@.len() - i,
    {
        r.push((v[i].0.clone(), v[i].1.clone()));
        assert(r@ =~= v@.subrange(0, i + 1));
        i = i + 1;
    }
    assert(v@.subrange(0, i as int) =~= v@);
    r
}

pub fn clone_suites(v: &Vec<TestSuite>) -> (r: Vec<TestSuite>)
    ensures
        r@ == v@,
{
    let r = v.clone();
    assert(r@ =~= v@);
    r
}

impl Clone for Standard {
    fn clone(&self) -> (r: Self)
        ensures
            r@ == self@,
            r.extra_attrs@ == self.extra_attrs@,
    {
        let r = Standard {
            name: self.name.clone(),
            long_name: clone_text_option(&self.long_name),
            unit: self.unit.clone(),
            description: self.description.clone(),
            aliases: clone_texts(&self.aliases),
            ioos_category: clone_text_option(&self.ioos_category),
            common_variable_names: clone_texts(&self.common_variable_names),
            related_standards: clone_texts(&self.related_standards),
            sibling_standards: clone_texts(&self.sibling_standards),
            extra_attrs: clone_pairs(&self.extra_attrs),
            other_units: clone_texts(&self.other_units),
            comments: clone_text_option(&self.comments),
            qartod: clone_suites(&self.qartod),
        };
        assert(r.aliases.deep_view() =~= self.aliases.deep_view());
        assert(r.common_variable_names.deep_view() =~= self.common_variable_names.deep_view());
        assert(r.related_standards.deep_view() =~= self.related_standards.deep_view());
        assert(r.sibling_standards.deep_view() =~= self.sibling_standards.deep_view());
        assert(r.other_units.deep_view() =~= self.other_units.deep_view());
        r
    }
}

/// A standard over plain values.
pub struct StandardView {
    pub name: Seq<char>,
    pub long_name: Option<Seq<char>>,
    pub unit: Seq<char>,
    pub description: Seq<char>,
    pub aliases: Seq<Seq<char>>,
    pub ioos_category: Option<Seq<char>>,
    pub common_variable_names: Seq<Seq<char>>,
    pub related_standards: Seq<Seq<char>>,
    pub sibling_standards: Seq<Seq<char>>,
    pub extra_attrs: Seq<(Seq<char>, Seq<char>)>,
    pub other_units: Seq<Seq<char>>,
    pub comments: Option<Seq<char>>,
    pub qartod: Seq<TestSuite>,
}

/// The text of an optional field.
pub open spec fn opt_view(o: Option<String>) -> Option<Seq<char>> {
    match o {
        Some(s) => Some(s@),
        None => None,
    }
}

impl View for Standard {
    type V = StandardView;

    open spec fn view(&self) -> StandardView {
        StandardView {
            name: self.name@,
            long_name: opt_view(self.long_name),
            unit: self.unit@,
            description: self.description@,
            aliases: self.aliases.deep_view(),
            ioos_category: opt_view(self.ioos_category),
            common_variable_names: self.common_variable_names.deep_view(),
            related_standards: self.related_standards.deep_view(),
            sibling_standards: self.sibling_standards.deep_view(),
            extra_attrs: pairs_view(self.extra_attrs@),
            other_units: self.other_units.deep_view(),
            comments: opt_view(self.comments),
            qartod: self.qartod@,
        }
    }
}

/// The text an optional field holds, or nothing.
pub open spec fn opt_texts(o: Option<String>) -> Seq<Seq<char>> {
    match o {
        Some(s) => seq![s@],
        None => seq![],
    }
}

/// An optional field that holds a non-empty text.
pub open spec fn present(o: Option<String>) -> bool {
    o is Some && o->0@.len() > 0
}

impl Standard {
    /// Each extra attribute key occurs once, and keys are in order.
    pub open spec fn wf(&self) -> bool {
        keys_sorted(self.extra_attrs@)
    }

    /// The texts that search looks at: the scalar fields, every list
    /// element, the extra attribute keys, and each suite's name and
    /// description; empty texts left out.
    pub open spec fn search_strings_spec(&self) -> Seq<Seq<char>> {
        nonempty_texts(
            seq![self.name@] + opt_texts(self.long_name) + seq![self.unit@, self.description@]
                + opt_texts(self.ioos_category) + opt_texts(self.comments) + self.aliases.deep_view()
                + self.common_variable_names.deep_view() + self.related_standards.deep_view()
                + self.sibling_standards.deep_view() + self.extra_attrs@.map_values(|p: (String, String)| p.0@)
                + self.other_units.deep_view() + self.qartod@.map_values(|t: TestSuite| t.name_spec())
                + self.qartod@.map_values(|t: TestSuite| t.description_spec()),
        )
    }

    /// `name - long_name - unit`, or `name - unit` without a (non-empty)
    /// long name.
    pub open spec fn display_short_spec(&self) -> Seq<char> {
        if present(self.long_name) {
            self.name@ + " - "@ + self.long_name->0@ + " - "@ + self.unit@
        } else {
            self.name@ + " - "@ + self.unit@
        }
    }

    /// Attribute values before the extra attributes are laid over them.
    pub open spec fn base_attr(&self, key: Seq<char>) -> Option<Seq<char>> {
        if key == "ioos_category"@ && present(self.ioos_category) {
            Some(self.ioos_category->0@)
        } else if key == "long_name"@ && present(self.long_name) {
            Some(self.long_name->0@)
        } else if key == "units"@ && self.unit@.len() > 0 {
            Some(self.unit@)
        } else if key == "standard_name"@ && self.name@.len() > 0 {
            Some(self.name@)
        } else {
            None
        }
    }

    /// The xarray attributes hold `key` with `value`: a non-empty extra
    /// attribute, or else a non-empty standard field.
    pub open spec fn xarray_has(&self, key: Seq<char>, value: Seq<char>) -> bool {
        (has_attr(self.extra_attrs@, key, value) && value.len() > 0) || (!has_nonempty(self.extra_attrs@, key)
            && self.base_attr(key) == Some(value))
    }

    /// Short format
    pub fn display_short(&self) -> (r: String)
        ensures
            r@ == self.display_short_spec(),
    {
        let mut out = self.name.clone();
        out.append(" - ");
        if let Some(long_name) = &self.long_name {
            if !long_name.as_str().is_empty() {
                out.append(long_name.as_str());
                out.append(" - ");
            }
        }
        out.append(self.unit.as_str());
        out
    }

    /// Every text that search indexes for this standard.
    pub fn search_strings(&self) -> (r: Vec<String>)
        ensures
            r.deep_view() == self.search_strings_spec(),
    {
        let mut out: Vec<String> = Vec::new();
        let ghost mut acc: Seq<Seq<char>> = Seq::empty();
        let ghost names = self.qartod@.map_values(|t: TestSuite| t.name_spec());
        let ghost descriptions = self.qartod@.map_values(|t: TestSuite| t.description_spec());
        let ghost keys = self.extra_attrs@.map_values(|p: (String, String)| p.0@);
        assert(out.deep_view() =~= nonempty_texts(Seq::empty())) by {
            reveal(Seq::filter);
        }
        push_nonempty(&mut out, &self.name);
        proof { lemma_nonempty_texts_add(acc, seq![self.name@]); acc = acc + seq![self.name@]; }
        push_nonempty_option(&mut out, &self.long_name);
        proof { lemma_nonempty_texts_add(acc, opt_texts(self.long_name)); acc = acc + opt_texts(self.long_name); }
        push_nonempty(&mut out, &self.unit);
        push_nonempty(&mut out, &self.description);
        proof {
            lemma_nonempty_texts_add(acc, seq![self.unit@]);
            lemma_nonempty_texts_add(acc + seq![self.unit@], seq![self.description@]);
            assert(acc + seq![self.unit@] + seq![self.description@] =~= acc + seq![self.unit@, self.description@]);
            acc = acc + seq![self.unit@, self.description@];
        }
        push_nonempty_option(&mut out, &self.ioos_category);
        proof { lemma_nonempty_texts_add(acc, opt_texts(self.ioos_category)); acc = acc + opt_texts(self.ioos_category); }
        push_nonempty_option(&mut out, &self.comments);
        proof { lemma_nonempty_texts_add(acc, opt_texts(self.comments)); acc = acc + opt_texts(self.comments); }
        push_nonempty_all(&mut out, &self.aliases);
        proof { lemma_nonempty_texts_add(acc, self.aliases.deep_view()); acc = acc + self.aliases.deep_view(); }
        push_nonempty_all(&mut out, &self.common_variable_names);
        proof {
            lemma_nonempty_texts_add(acc, self.common_variable_names.deep_view());
            acc = acc + self.common_variable_names.deep_view();
        }
        push_nonempty_all(&mut out, &self.related_standards);
        proof { lemma_nonempty_texts_add(acc, self.related_standards.deep_view()); acc = acc + self.related_standards.deep_view(); }
        push_nonempty_all(&mut out, &self.sibling_standards);
        proof { lemma_nonempty_texts_add(acc, self.sibling_standards.deep_view()); acc = acc + self.sibling_standards.deep_view(); }
        let mut key_texts: Vec<String> = Vec::new();
        let mut i: usize = 0;
        while i < self.extra_attrs.len()
            invariant
                0 <= i <= self.extra_attrs@.len(),
                keys == self.extra_attrs@.map_values(|p: (String, String)| p.0@),
                key_texts.deep_view() == keys.subrange(0, i as int),
            decreases self.extra_attrs@.len() - i,
        {
            let ghost before = key_texts.deep_view();
            key_texts.push(self.extra_attrs[i].0.clone());
            assert(key_texts.deep_view() =~= before.push(self.extra_attrs@[i as int].0@));
            assert(key_texts.deep_view() =~= keys.subrange(0, i + 1));
            i = i + 1;
        }
        assert(keys.subrange(0, i as int) =~= keys);
        push_nonempty_all(&mut out, &key_texts);
        proof { lemma_nonempty_texts_add(acc, keys); acc = acc + keys; }
        push_nonempty_all(&mut out, &self.other_units);
        proof { lemma_nonempty_texts_add(acc, self.other_units.deep_view()); acc = acc + self.other_units.deep_view(); }
        let mut suite_names: Vec<String> = Vec::new();
        let mut suite_descriptions: Vec<String> = Vec::new();
        let mut j: usize = 0;
        while j < self.qartod.len()
            invariant
                0 <= j <= self.qartod@.len(),
                names == self.qartod@.map_values(|t: TestSuite| t.name_spec()),
                descriptions == self.qartod@.map_values(|t: TestSuite| t.description_spec()),
                suite_names.deep_view() == names.subrange(0, j as int),
                suite_descriptions.deep_view() == descriptions.subrange(0, j as int),
            decreases self.qartod@.len() - j,
        {
            let info = self.qartod[j].info();
            let ghost before_names = suite_names.deep_view();
            let ghost before_descriptions = suite_descriptions.deep_view();
            suite_names.push(info.name);
            suite_descriptions.push(info.description);
            assert(suite_names.deep_view() =~= before_names.push(self.qartod@[j as int].name_spec()));
            assert(suite_descriptions.deep_view() =~= before_descriptions.push(self.qartod@[j as int].description_spec()));
            assert(suite_names.deep_view() =~= names.subrange(0, j + 1));
            assert(suite_descriptions.deep_view() =~= descriptions.subrange(0, j + 1));
            j = j + 1;
        }
        assert(names.subrange(0, j as int) =~= names);
        assert(descriptions.subrange(0, j as int) =~= descriptions);
        push_nonempty_all(&mut out, &suite_names);
        proof { lemma_nonempty_texts_add(acc, names); acc = acc + names; }
        push_nonempty_all(&mut out, &suite_descriptions);
        proof { lemma_nonempty_texts_add(acc, descriptions); acc = acc + descriptions; }
        out
    }

    /// Do any of the indexed texts of the standard contain the pattern,
    /// compared in lower case.
    pub fn matches_pattern(&self, search_str: &str) -> (r: bool)
        ensures
            r == exists|i: int| 0 <= i < self.search_strings_spec().len()
                && contains_text(lower_of(#[trigger] self.search_strings_spec()[i]), lower_of(search_str@)),
    {
        let strings = self.search_strings();
        let query = lowercase(search_str);
        let mut lowered: Vec<String> = Vec::new();
        let mut i: usize = 0;
        while i < strings.len()
            invariant
                0 <= i <= strings@.len(),
                lowered@.len() == i,
                forall|j: int| 0 <= j < i ==> (#[trigger] lowered@[j])@ == lower_of(strings@[j]@),
            decreases strings@.len() - i,
        {
            lowered.push(lowercase(strings[i].as_str()));
            i = i + 1;
        }
        let r = any_contains(&lowered, query.as_str());
        proof {
            assert(strings.deep_view() == self.search_strings_spec());
            if r {
                let j = choose|j: int| 0 <= j < lowered@.len() && contains_text(#[trigger] lowered@[j]@, query@);
                assert(strings.deep_view()[j] == strings@[j]@);
            }
            if exists|i: int| 0 <= i < self.search_strings_spec().len()
                && contains_text(lower_of(#[trigger] self.search_strings_spec()[i]), lower_of(search_str@)) {
                let j = choose|i: int| 0 <= i < self.search_strings_spec().len()
                    && contains_text(lower_of(#[trigger] self.search_strings_spec()[i]), lower_of(search_str@));
                assert(strings.deep_view()[j] == strings@[j]@);
                assert(contains_text(lowered@[j]@, query@));
            }
        }
        r
    }
}

impl Standard {
    /// Attributes displayed with Xarray: the standard name, units, long
    /// name and IOOS category, then the extra attributes over them; empty
    /// values left out, sorted by key.
    pub fn xarray_attrs(&self) -> (r: Vec<(String, String)>)
        requires
            self.wf(),
        ensures
            keys_sorted(r@),
            forall|k: Seq<char>, v: Seq<char>| #[trigger] has_attr(r@, k, v) <==> self.xarray_has(k, v),
            forall|i: int| 0 <= i < r@.len() ==> (#[trigger] r@[i]).1@.len() > 0,
    {
        proof {
            reveal_strlit("standard_name");
            reveal_strlit("units");
            reveal_strlit("long_name");
            reveal_strlit("ioos_category");
        }
        let mut out: Vec<(String, String)> = Vec::new();
        if !self.name.as_str().is_empty() {
            upsert_attr(&mut out, String::from_str("standard_name"), self.name.clone());
        }
        if !self.unit.as_str().is_empty() {
            upsert_attr(&mut out, String::from_str("units"), self.unit.clone());
        }
        if let Some(long_name) = &self.long_name {
            if !long_name.as_str().is_empty() {
                upsert_attr(&mut out, String::from_str("long_name"), long_name.clone());
            }
        }
        if let Some(category) = &self.ioos_category {
            if !category.as_str().is_empty() {
                upsert_attr(&mut out, String::from_str("ioos_category"), category.clone());
            }
        }
        let ghost extra = self.extra_attrs@;
        assert forall|k: Seq<char>, v: Seq<char>| #[trigger] has_attr(out@, k, v) <==> self.base_attr(k) == Some(v) by {
            if has_attr(out@, k, v) {
                let j = choose|j: int| 0 <= j < out@.len() && (#[trigger] out@[j]).0@ == k && out@[j].1@ == v;
            }
        }
        let mut i: usize = 0;
        while i < self.extra_attrs.len()
            invariant
                0 <= i <= extra.len(),
                extra == self.extra_attrs@,
                keys_sorted(extra),
                keys_sorted(out@),
                forall|k: Seq<char>, v: Seq<char>| #[trigger] has_attr(out@, k, v) <==> ((has_attr(extra.subrange(0, i as int), k, v)
                    && v.len() > 0) || (!has_nonempty(extra.subrange(0, i as int), k) && self.base_attr(k) == Some(v))),
            decreases extra.len() - i,
        {
            let ghost before = out@;
            let ghost sub = extra.subrange(0, i as int);
            let ghost next = extra.subrange(0, i + 1);
            let ghost key = extra[i as int].0@;
            let ghost value = extra[i as int].1@;
            proof {
                assert forall|j: int| 0 <= j < i implies (#[trigger] extra[j]).0@ != key by {
                    assert(keys_sorted(extra));
                }
                assert forall|k: Seq<char>, v: Seq<char>| #[trigger] has_attr(next, k, v) <==> (has_attr(sub, k, v) || (k == key && v == value)) by {
                    if has_attr(next, k, v) {
                        let j = choose|j: int| 0 <= j < next.len() && (#[trigger] next[j]).0@ == k && next[j].1@ == v;
                        if j < i {
                            assert(sub[j] == next[j]);
                        }
                    }
                    if has_attr(sub, k, v) {
                        let j = choose|j: int| 0 <= j < sub.len() && (#[trigger] sub[j]).0@ == k && sub[j].1@ == v;
                        assert(next[j] == sub[j]);
                    }
                    if k == key && v == value {
                        assert(next[i as int] == extra[i as int]);
                    }
                }
                assert forall|k: Seq<char>| #[trigger] has_nonempty(next, k) <==> (has_nonempty(sub, k) || (k == key && value.len() > 0)) by {
                    if has_nonempty(next, k) {
                        let j = choose|j: int| 0 <= j < next.len() && (#[trigger] next[j]).0@ == k && next[j].1@.len() > 0;
                        if j < i {
                            assert(sub[j] == next[j]);
                        }
                    }
                    if has_nonempty(sub, k) {
                        let j = choose|j: int| 0 <= j < sub.len() && (#[trigger] sub[j]).0@ == k && sub[j].1@.len() > 0;
                        assert(next[j] == sub[j]);
                    }
                    if k == key && value.len() > 0 {
                        assert(next[i as int] == extra[i as int]);
                    }
                }
                assert forall|v: Seq<char>| !has_attr(sub, key, v) by {
                    if has_attr(sub, key, v) {
                        let j = choose|j: int| 0 <= j < sub.len() && (#[trigger] sub[j]).0@ == key && sub[j].1@ == v;
                        assert(sub[j] == extra[j]);
                    }
                }
                assert(!has_nonempty(sub, key)) by {
                    if has_nonempty(sub, key) {
                        let j = choose|j: int| 0 <= j < sub.len() && (#[trigger] sub[j]).0@ == key && sub[j].1@.len() > 0;
                        assert(sub[j] == extra[j]);
                    }
                }
            }
            if !self.extra_attrs[i].1.as_str().is_empty() {
                upsert_attr(&mut out, self.extra_attrs[i].0.clone(), self.extra_attrs[i].1.clone());
                proof {
                    assert forall|k: Seq<char>, v: Seq<char>| #[trigger] has_attr(out@, k, v) <==> ((has_attr(next, k, v) && v.len() > 0)
                        || (!has_nonempty(next, k) && self.base_attr(k) == Some(v))) by {
                        if k == key {
                            assert(has_attr(next, k, value));
                            if has_attr(next, k, v) {
                                assert(keys_sorted(next));
                                lemma_attr_unique(next, k, v, value);
                            }
                        }
                    }
                }
            }
            i = i + 1;
        }
        assert(extra.subrange(0, i as int) =~= extra);
        assert forall|i: int| 0 <= i < out@.len() implies (#[trigger] out@[i]).1@.len() > 0 by {
            assert(has_attr(out@, out@[i].0@, out@[i].1@));
        }
        out
    }
}

/// The xarray attributes as a block: `{`, one `"key": "value",` line
/// each, then `}`.
pub open spec fn xarray_text(a: Seq<(String, String)>) -> Seq<char> {
    "{"@ + pairs_text(a) + "\n}"@
}

pub open spec fn pairs_text(a: Seq<(String, String)>) -> Seq<char>
    decreases a.len(),
{
    if a.len() == 0 {
        Seq::empty()
    } else {
        pairs_text(a.drop_last()) + "\n  \""@ + a.last().0@ + "\": \""@ + a.last().1@ + "\","@
    }
}

/// The one-line description of a suite.
pub open spec fn suite_line(t: TestSuite) -> Seq<char> {
    t.name_spec() + " ("@ + t.slug_spec() + "): "@ + t.summary_spec()
}

/// A labelled line listing a non-empty list.
pub open spec fn list_section(label: Seq<char>, items: Seq<Seq<char>>) -> Seq<char> {
    if items.len() > 0 {
        label + join(items, ", "@)
    } else {
        Seq::empty()
    }
}

/// A labelled text that is present and not empty.
pub open spec fn text_section(label: Seq<char>, o: Option<String>) -> Seq<char> {
    if present(o) {
        label + o->0@
    } else {
        Seq::empty()
    }
}

impl Standard {
    /// Everything `display_all` writes, given the xarray block.
    pub open spec fn display_all_spec(&self, xarray: Seq<char>) -> Seq<char> {
        self.display_short_spec() + list_section("\n  Aliases: "@, self.aliases.deep_view()) + text_section(
            "\n  IOOS Category: "@,
            self.ioos_category,
        ) + list_section("\n  Common variables: "@, self.common_variable_names.deep_view()) + list_section(
            "\n  Related standards: "@,
            self.related_standards.deep_view(),
        ) + list_section("\n  Sibling standards: "@, self.sibling_standards.deep_view()) + (if self.extra_attrs@.len()
            > 0 {
            "\n  Extra attributes:\n "@ + xarray
        } else {
            Seq::empty()
        }) + list_section("\n  Other units: "@, self.other_units.deep_view()) + (if self.qartod@.len() > 0 {
            "\n\nQARTOD Test Suites:\n- "@ + join(self.qartod@.map_values(|t: TestSuite| suite_line(t)), "\n- "@)
        } else {
            Seq::empty()
        }) + "\n\n"@ + self.description@ + text_section("\n\nComments: "@, self.comments)
    }

    /// The xarray attributes written as a block.
    pub fn display_xarray_attrs(&self) -> (r: String)
        requires
            self.wf(),
        ensures
            exists|a: Seq<(String, String)>|
                keys_sorted(a) && (forall|k: Seq<char>, v: Seq<char>| #[trigger] has_attr(a, k, v) <==> self.xarray_has(k, v))
                    && r@ == xarray_text(a),
    {
        let attrs = self.xarray_attrs();
        let mut out = String::from_str("{");
        let mut i: usize = 0;
        while i < attrs.len()
            invariant
                0 <= i <= attrs@.len(),
                out@ == "{"@ + pairs_text(attrs@.subrange(0, i as int)),
            decreases attrs@.len() - i,
        {
            assert(attrs@.subrange(0, i + 1).drop_last() =~= attrs@.subrange(0, i as int));
            out.append("\n  \"");
            out.append(attrs[i].0.as_str());
            out.append("\": \"");
            out.append(attrs[i].1.as_str());
            out.append("\",");
            i = i + 1;
        }
        assert(attrs@.subrange(0, i as int) =~= attrs@);
        out.append("\n}");
        out
    }

    /// Display all the fields for a standard.
    pub fn display_all(&self) -> (r: String)
        requires
            self.wf(),
        ensures
            exists|a: Seq<(String, String)>|
                keys_sorted(a) && (forall|k: Seq<char>, v: Seq<char>| #[trigger] has_attr(a, k, v) <==> self.xarray_has(k, v))
                    && r@ == self.display_all_spec(xarray_text(a)),
    {
        let xarray = self.display_xarray_attrs();
        let ghost a = choose|a: Seq<(String, String)>|
            keys_sorted(a) && (forall|k: Seq<char>, v: Seq<char>| #[trigger] has_attr(a, k, v) <==> self.xarray_has(k, v))
                && xarray@ == xarray_text(a);
        let mut out = self.display_short();
        append_list(&mut out, "\n  Aliases: ", &self.aliases);
        append_text(&mut out, "\n  IOOS Category: ", &self.ioos_category);
        append_list(&mut out, "\n  Common variables: ", &self.common_variable_names);
        append_list(&mut out, "\n  Related standards: ", &self.related_standards);
        append_list(&mut out, "\n  Sibling standards: ", &self.sibling_standards);
        if self.extra_attrs.len() > 0 {
            out.append("\n  Extra attributes:\n ");
            out.append(xarray.as_str());
        }
        append_list(&mut out, "\n  Other units: ", &self.other_units);
        if self.qartod.len() > 0 {
            let ghost lines_spec = self.qartod@.map_values(|t: TestSuite| suite_line(t));
            let mut lines: Vec<String> = Vec::new();
            let mut i: usize = 0;
            while i < self.qartod.len()
                invariant
                    0 <= i <= self.qartod@.len(),
                    lines_spec == self.qartod@.map_values(|t: TestSuite| suite_line(t)),
                    lines.deep_view() == lines_spec.subrange(0, i as int),
                decreases self.qartod@.len() - i,
            {
                let info = self.qartod[i].info();
                let line = info.summary_line();
                let ghost before = lines.deep_view();
                lines.push(line);
                assert(lines.deep_view() =~= before.push(lines_spec[i as int]));
                assert(lines.deep_view() =~= lines_spec.subrange(0, i + 1));
                i = i + 1;
            }
            assert(lines_spec.subrange(0, i as int) =~= lines_spec);
            out.append("\n\nQARTOD Test Suites:\n- ");
            let joined = join_texts(&lines, "\n- ");
            out.append(joined.as_str());
        }
        out.append("\n\n");
        out.append(self.description.as_str());
        append_text(&mut out, "\n\nComments: ", &self.comments);
        proof {
            assert(out@ =~= self.display_all_spec(xarray_text(a)));
        }
        out
    }
}

fn append_list(out: &mut String, label: &str, items: &Vec<String>)
    ensures
        final(out)@ == old(out)@ + list_section(label@, items.deep_view()),
{
    if items.len() > 0 {
        out.append(label);
        let joined = join_texts(items, ", ");
        out.append(joined.as_str());
    } else {
        assert(out@ =~= old(out)@ + list_section(label@, items.deep_view()));
    }
}

fn append_text(out: &mut String, label: &str, o: &Option<String>)
    ensures
        final(out)@ == old(out)@ + text_section(label@, *o),
{
    if let Some(s) = o {
        if !s.as_str().is_empty() {
            out.append(label);
            out.append(s.as_str());
            return;
        }
    }
    assert(out@ =~= old(out)@ + text_section(label@, *o));
}

/// No label of `display_all` or `display_short` is shown without a value:
/// a labelled text appears only when it is present and non-empty, a
/// labelled list only when it has elements, the long name only when it is
/// non-empty, and every xarray attribute in the block has a non-empty
/// value.
pub proof fn lemma_display_labels_have_values(s: Standard, label: Seq<char>, o: Option<String>, items: Seq<Seq<char>>)
    ensures
        text_section(label, o) == Seq::<char>::empty() || (present(o) && text_section(label, o) == label + o->0@),
        list_section(label, items) == Seq::<char>::empty() || (items.len() > 0 && list_section(label, items) == label
            + join(items, ", "@)),
        present(s.long_name) ==> s.display_short_spec() == s.name@ + " - "@ + s.long_name->0@ + " - "@ + s.unit@,
        !present(s.long_name) ==> s.display_short_spec() == s.name@ + " - "@ + s.unit@,
        forall|k: Seq<char>, v: Seq<char>| #[trigger] s.xarray_has(k, v) ==> v.len() > 0,
{
    assert forall|k: Seq<char>, v: Seq<char>| #[trigger] s.xarray_has(k, v) implies v.len() > 0 by {
        if !(has_attr(s.extra_attrs@, k, v) && v.len() > 0) {
            assert(s.base_attr(k) == Some(v));
        }
    }
}

/// The extra attributes hold `key` with a non-empty value.
pub open spec fn has_nonempty(s: Seq<(String, String)>, key: Seq<char>) -> bool {
    exists|j: int| 0 <= j < s.len() && (#[trigger] s[j]).0@ == key && s[j].1@.len() > 0
}

/// Whether some text contains `query`, texts and query compared as given.
pub fn any_contains(texts: &Vec<String>, query: &str) -> (r: bool)
    ensures
        r == exists|i: int| 0 <= i < texts@.len() && contains_text(#[trigger] texts@[i]@, query@),
{
    let mut i: usize = 0;
    while i < texts.len()
        invariant
            0 <= i <= texts@.len(),
            forall|j: int| 0 <= j < i ==> !contains_text(#[trigger] texts@[j]@, query@),
        decreases texts@.len() - i,
    {
        if text_contains(texts[i].as_str(), query) {
            return true;
        }
        i = i + 1;
    }
    false
}

/// Append the text of an optional field when it is present and not empty.
fn push_nonempty_option(out: &mut Vec<String>, o: &Option<String>)
    ensures
        final(out).deep_view() == old(out).deep_view() + nonempty_texts(opt_texts(*o)),
{
    match o {
        Some(s) => push_nonempty(out, s),
        None => {
            assert(nonempty_texts(opt_texts(*o)) =~= Seq::<Seq<char>>::empty()) by {
                reveal(Seq::filter);
            }
            assert(out.deep_view() =~= old(out).deep_view() + nonempty_texts(opt_texts(*o)));
        },
    }
}

} // verus!
