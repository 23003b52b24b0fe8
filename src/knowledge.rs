//! Knowledge records: community-written overlays for standards.

use vstd::prelude::*;

use crate::attrs::{has_attr, keys_sorted, upsert_attr};
use crate::qartod::StaticQc;
use crate::text::{ends_with, text_ends_with, text_eq, text_le};

verus! {

/// A knowledge record, keyed by the name of the standard it applies to.
#[derive(Debug)]
pub struct Knowledge {
    /// Standard name the knowledge applies to
    pub name: String,
    /// Human readable name
    pub long_name: Option<String>,
    /// Usual IOOS category for the standard
    pub ioos_category: Option<String>,
    /// Common variable names in a dataset
    pub common_variable_names: Vec<String>,
    /// Other standards to consider
    pub related_standards: Vec<String>,
    /// Standards that are usually used together
    pub sibling_standards: Vec<String>,
    /// Extra attributes that are usually included in Xarray or NetCDF
    /// metadata, sorted by key
    pub extra_attrs: Vec<(String, String)>,
    /// Other units that may be seen
    pub other_units: Vec<String>,
    /// Community comments on standard usage
    pub comments: Option<String>,
    /// Static QC suites, by slug
    pub qc: Vec<(String, StaticQc)>,
}

/// QC slugs strictly ascending in `String` order, so each occurs once.
pub open spec fn slugs_sorted(qc: Seq<(String, StaticQc)>) -> bool {
    forall|i: int, j: int| 0 <= i < j < qc.len() ==> text_le(#[trigger] qc[i].0@, #[trigger] qc[j].0@) && qc[i].0@ != qc[j].0@
}

impl Knowledge {
    /// Each extra attribute key and each QC slug occurs once, in order.
    pub open spec fn wf(&self) -> bool {
        &&& keys_sorted(self.extra_attrs@)
        &&& slugs_sorted(self.qc@)
    }

    /// A record for `name` that adds nothing.
    pub fn named(name: String) -> (r: Knowledge)
        ensures
            r.name == name,
            r.long_name is None,
            r.ioos_category is None,
            r.comments is None,
            r.common_variable_names@.len() == 0,
            r.related_standards@.len() == 0,
            r.sibling_standards@.len() == 0,
            r.extra_attrs@.len() == 0,
            r.other_units@.len() == 0,
            r.qc@.len() == 0,
            r.wf(),
    {
        Knowledge {
            name,
            long_name: None,
            ioos_category: None,
            common_variable_names: Vec::new(),
            related_standards: Vec::new(),
            sibling_standards: Vec::new(),
            extra_attrs: Vec::new(),
            other_units: Vec::new(),
            comments: None,
            qc: Vec::new(),
        }
    }
}

/// A knowledge document as written: every field may be absent.
#[derive(Debug)]
pub struct YamlKnowledge {
    /// Standard name the knowledge applies to; the file's stem when absent
    pub name: Option<String>,
    pub long_name: Option<String>,
    pub ioos_category: Option<String>,
    pub common_variable_names: Option<Vec<String>>,
    pub related_standards: Option<Vec<String>>,
    pub sibling_standards: Option<Vec<String>>,
    /// Extra attributes in document order
    pub extra_attrs: Option<Vec<(String, String)>>,
    pub other_units: Option<Vec<String>>,
    pub comments: Option<String>,
    pub qc: Option<Vec<(String, StaticQc)>>,
}

/// The value the last pair with key `key` gives, if any.
pub open spec fn last_value(pairs: Seq<(String, String)>, key: Seq<char>) -> Option<Seq<char>>
    decreases pairs.len(),
{
    if pairs.len() == 0 {
        None
    } else if pairs.last().0@ == key {
        Some(pairs.last().1@)
    } else {
        last_value(pairs.drop_last(), key)
    }
}

/// A list that may be absent, taken as empty when it is.
pub open spec fn or_empty<T>(o: Option<Vec<T>>) -> Seq<T> {
    match o {
        Some(v) => v@,
        None => Seq::empty(),
    }
}

fn take_list<T>(o: Option<Vec<T>>) -> (r: Vec<T>)
    ensures
        r@ == or_empty(o),
{
    match o {
        Some(v) => v,
        None => Vec::new(),
    }
}

impl YamlKnowledge {
    /// The record this document gives, named `default_name` unless it
    /// names itself. Extra attributes are sorted by key; a key given twice
    /// keeps its last value.
    pub fn into_knowledge(self, default_name: &str) -> (r: Knowledge)
        requires
            slugs_sorted(or_empty(self.qc)),
        ensures
            r.name@ == (match self.name {
                Some(n) => n@,
                None => default_name@,
            }),
            r.long_name == self.long_name,
            r.ioos_category == self.ioos_category,
            r.comments == self.comments,
            r.common_variable_names@ == or_empty(self.common_variable_names),
            r.related_standards@ == or_empty(self.related_standards),
            r.sibling_standards@ == or_empty(self.sibling_standards),
            r.other_units@ == or_empty(self.other_units),
            r.qc@ == or_empty(self.qc),
            r.wf(),
            forall|k: Seq<char>, v: Seq<char>| #[trigger] has_attr(r.extra_attrs@, k, v) <==> last_value(
                or_empty(self.extra_attrs),
                k,
            ) == Some(v),
    {
        let name = match self.name {
            Some(n) => n,
            None => String::from_str(default_name),
        };
        let given = take_list(self.extra_attrs);
        let mut extra_attrs: Vec<(String, String)> = Vec::new();
        let mut i: usize = 0;
        while i < given.len()
            invariant
                0 <= i <= given@.len(),
                keys_sorted(extra_attrs@),
                forall|k: Seq<char>, v: Seq<char>| #[trigger] has_attr(extra_attrs@, k, v) <==> last_value(
                    given@.subrange(0, i as int),
                    k,
                ) == Some(v),
            decreases given@.len() - i,
        {
            assert(given@.subrange(0, i + 1).drop_last() =~= given@.subrange(0, i as int));
            upsert_attr(&mut extra_attrs, given[i].0.clone(), given[i].1.clone());
            i = i + 1;
        }
        assert(given@.subrange(0, i as int) =~= given@);
        Knowledge {
            name,
            long_name: self.long_name,
            ioos_category: self.ioos_category,
            common_variable_names: take_list(self.common_variable_names),
            related_standards: take_list(self.related_standards),
            sibling_standards: take_list(self.sibling_standards),
            extra_attrs,
            other_units: take_list(self.other_units),
            comments: self.comments,
            qc: take_list(self.qc),
        }
    }
}


/// The text after the last `/`, or all of it.
pub open spec fn last_segment(s: Seq<char>) -> Seq<char> {
    if exists|p: int| 0 <= p < s.len() && s[p] == '/' {
        let p = choose|p: int| 0 <= p < s.len() && s[p] == '/' && forall|q: int| p < q < s.len() ==> s[q] != '/';
        s.subrange(p + 1, s.len() as int)
    } else {
        s
    }
}

/// `s` without its last `n` characters.
pub open spec fn drop_end(s: Seq<char>, n: int) -> Seq<char> {
    s.subrange(0, s.len() - n)
}

/// The standard name a knowledge document at `url` applies to: its last
/// path segment without `.yaml` or `.yml`.
pub open spec fn name_from_url(url: Seq<char>) -> Seq<char> {
    let seg = last_segment(url);
    if ends_with(seg, ".yaml"@) {
        drop_end(seg, 5)
    } else if ends_with(seg, ".yml"@) {
        drop_end(seg, 4)
    } else {
        "unknown_standard"@
    }
}

/// The standard name that a knowledge document fetched from `url` applies
/// to, unless it names one itself.
pub fn knowledge_name_from_url(url: &str) -> (r: String)
    ensures
        r@ == name_from_url(url@),
{
    let n = url.unicode_len();
    let mut i: usize = n;
    while i > 0 && url.get_char(i - 1) != '/'
        invariant
            0 <= i <= n,
            n == url@.len(),
            forall|q: int| i <= q < n ==> url@[q] != '/',
        decreases i,
    {
        i = i - 1;
    }
    proof {
        if i > 0 {
            let p = (i - 1) as int;
            let c = choose|c: int| 0 <= c < url@.len() && url@[c] == '/' && forall|q: int| c < q < url@.len() ==> url@[q] != '/';
            if c < p {
                assert(url@[p] == '/');
            } else if c > p {
                assert(url@[c] == '/');
            }
        } else {
            assert(url@.subrange(0, n as int) =~= url@);
        }
    }
    let segment = url.substring_char(i, n);
    let seg_len = n - i;
    proof {
        reveal_strlit(".yaml");
        reveal_strlit(".yml");
    }
    if text_ends_with(segment, ".yaml") {
        String::from_str(segment.substring_char(0, seg_len - 5))
    } else if text_ends_with(segment, ".yml") {
        String::from_str(segment.substring_char(0, seg_len - 4))
    } else {
        String::from_str("unknown_standard")
    }
}

/// The name a file in a knowledge directory applies to: its stem when it
/// is a `.yaml` or `.yml` file with a non-empty stem other than the
/// catalog's own `_cf_standards`.
pub open spec fn stem_for_knowledge(file_name: Seq<char>) -> Option<Seq<char>> {
    let stem = if ends_with(file_name, ".yaml"@) && file_name.len() > 5 {
        Some(drop_end(file_name, 5))
    } else if ends_with(file_name, ".yml"@) && file_name.len() > 4 {
        Some(drop_end(file_name, 4))
    } else {
        None
    };
    match stem {
        Some(s) => if s == "_cf_standards"@ {
            None
        } else {
            Some(s)
        },
        None => None,
    }
}

/// Whether a directory entry is a knowledge document, and the name it
/// applies to.
pub fn knowledge_file_stem(file_name: &str) -> (r: Option<String>)
    ensures
        match r {
            Some(s) => stem_for_knowledge(file_name@) == Some(s@),
            None => stem_for_knowledge(file_name@) is None,
        },
{
    proof {
        reveal_strlit(".yaml");
        reveal_strlit(".yml");
    }
    let n = file_name.unicode_len();
    let stem = if text_ends_with(file_name, ".yaml") && n > 5 {
        file_name.substring_char(0, n - 5)
    } else if text_ends_with(file_name, ".yml") && n > 4 {
        file_name.substring_char(0, n - 4)
    } else {
        return None;
    };
    if text_eq(stem, "_cf_standards") {
        None
    } else {
        Some(String::from_str(stem))
    }
}

} // verus!
