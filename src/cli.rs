//! The decisions behind the command-line front end: which standards a
//! filter request selects, and what a QC request answers.

use vstd::prelude::*;

use crate::filter::{category_pred, searched, selects, unit_pred, variable_pred, views, StandardsFilter};
use crate::library::{first_resolving, position_of, StandardsLibrary};
use crate::qartod::{typed_as, ArgumentType, ArgumentValue, ConfigStream, ScaffoldError, TestArgument, TestSuite, TestSuiteInfo};
use crate::standard::{Standard, StandardView};
use crate::text::text_eq;

verus! {

/// How a list of standards is shown.
#[derive(Clone, Copy, Debug, PartialEq, Eq, Structural)]
pub enum ListFormat {
    /// Shorthand display
    Short,
    /// Xarray attributes
    Xarray,
}

/// How one standard is shown.
#[derive(Clone, Copy, Debug, PartialEq, Eq, Structural)]
pub enum GetFormat {
    /// Shorthand display
    Short,
    /// All info for standard
    Full,
    /// Xarray attributes
    Xarray,
}

/// A filter request: each criterion given narrows the selection.
#[derive(Debug)]
pub struct FilterArgs {
    /// Filter by common variable names
    pub var: Option<String>,
    /// Filter by IOOS category
    pub ioos_category: Option<String>,
    /// Filter by unit
    pub unit: Option<String>,
    /// Search by string across multiple fields
    pub search: Option<String>,
    /// Format to display in
    pub format: ListFormat,
}

/// `after` is `before` narrowed by `p` when a criterion is given, and
/// `before` unchanged when none is.
pub open spec fn narrowed_by(before: Seq<Standard>, given: bool, p: spec_fn(StandardView) -> bool, after: Seq<Standard>) -> bool {
    if given {
        selects(before, p, after)
    } else {
        views(after) == views(before)
    }
}

/// The text of an optional criterion, or nothing.
pub open spec fn criterion(o: Option<String>) -> Seq<char> {
    match o {
        Some(s) => s@,
        None => Seq::empty(),
    }
}

/// The standards that a filter request selects: by variable name, then
/// category, then unit, then search.
pub fn filter_standards(args: &FilterArgs, library: &StandardsLibrary) -> (r: StandardsFilter)
    ensures
        exists|a: Seq<Standard>, b: Seq<Standard>, c: Seq<Standard>|
            #![trigger a.len(), b.len(), c.len()]
            {
                &&& narrowed_by(library.standards@, args.var is Some, variable_pred(criterion(args.var)), a)
                &&& narrowed_by(a, args.ioos_category is Some, category_pred(criterion(args.ioos_category)), b)
                &&& narrowed_by(b, args.unit is Some, unit_pred(criterion(args.unit)), c)
                &&& (args.search is None ==> views(r.standards@) == views(c))
                &&& (args.search is Some ==> searched(c, criterion(args.search), r.standards@))
            },
{
    let all = library.filter();
    let f1 = match &args.var {
        Some(v) => all.by_variable_name(v.as_str()),
        None => all,
    };
    let f2 = match &args.ioos_category {
        Some(c) => f1.by_ioos_category(c.as_str()),
        None => f1,
    };
    let f3 = match &args.unit {
        Some(u) => f2.by_unit(u.as_str()),
        None => f2,
    };
    let ghost a = f1.standards@;
    let ghost b = f2.standards@;
    let ghost c = f3.standards@;
    proof {
        assert(views(library.standards@) == views(all.standards@));
    }
    match &args.search {
        Some(q) => f3.search(q.as_str()),
        None => f3,
    }
}


/// A QC request.
#[derive(Debug)]
pub enum QcCommands {
    /// List all QARTOD test suites of a standard
    List { standard_name: String },
    /// Get info about a specific QARTOD test suite
    Get { standard_name: String, test_suite: String },
    /// Generate a configuration for a specific QARTOD test suite from
    /// `key=value` arguments
    Config { standard_name: String, test_suite: String, args: Vec<String> },
}

/// QARTOD test suite commands.
#[derive(Debug)]
pub struct QcArgs {
    pub command: QcCommands,
}

/// What a QC request answers.
#[derive(Debug)]
pub enum QcAnswer {
    /// The suites attached to the standard, at least one
    Suites(Vec<TestSuite>),
    /// The suite asked for
    Suite(TestSuite),
    /// The configuration the suite scaffolded, with the suite's name
    Config(String, ConfigStream),
}

/// Why a QC request has no answer.
#[derive(Debug)]
pub enum QcFailure {
    /// No standard has this name or alias
    StandardNotFound(String),
    /// The standard has no suites
    NoSuites(String),
    /// The standard has no suite with this slug
    SuiteNotFound(String),
    /// An argument is not of the form `key=value`
    InvalidArgument(String),
    /// The suite refused the arguments
    Scaffold(ScaffoldError),
}

/// The position of the first suite with slug `slug`.
pub open spec fn first_with_slug(suites: Seq<TestSuite>, slug: Seq<char>) -> Option<int>
    decreases suites.len(),
{
    if suites.len() == 0 {
        None
    } else if suites[0].slug_spec() == slug {
        Some(0)
    } else {
        match first_with_slug(suites.drop_first(), slug) {
            Some(i) => Some(i + 1),
            None => None,
        }
    }
}

/// The suite of `standard` with slug `slug`, the first if several.
pub fn find_suite(standard: &Standard, slug: &str) -> (r: Option<usize>)
    ensures
        r matches Some(i) ==> first_with_slug(standard.qartod@, slug@) == Some(i as int) && i < standard.qartod@.len(),
        r is None ==> first_with_slug(standard.qartod@, slug@) is None,
{
    let ghost q = standard.qartod@;
    let mut i: usize = 0;
    assert(q.subrange(0, q.len() as int) =~= q);
    while i < standard.qartod.len()
        invariant
            0 <= i <= q.len(),
            q == standard.qartod@,
            first_with_slug(q, slug@) == (match first_with_slug(q.subrange(i as int, q.len() as int), slug@) {
                Some(x) => Some(x + i),
                None => None,
            }),
        decreases q.len() - i,
    {
        let ghost rest = q.subrange(i as int, q.len() as int);
        assert(rest.drop_first() =~= q.subrange(i + 1, q.len() as int));
        let info = standard.qartod[i].info();
        if text_eq(info.slug.as_str(), slug) {
            return Some(i);
        }
        i = i + 1;
    }
    proof {
        let e = q.subrange(i as int, q.len() as int);
        assert(e.len() == 0);
    }
    None
}

/// The key and value of an argument written `key=value` with exactly one
/// `=`.
pub open spec fn assignment_of(s: Seq<char>) -> Option<(Seq<char>, Seq<char>)> {
    if exists|p: int| 0 <= p < s.len() && s[p] == '=' && forall|q: int| 0 <= q < s.len() && q != p ==> s[q] != '=' {
        let p = choose|p: int| 0 <= p < s.len() && s[p] == '=' && forall|q: int| 0 <= q < s.len() && q != p ==> s[q] != '=';
        Some((s.subrange(0, p), s.subrange(p + 1, s.len() as int)))
    } else {
        None
    }
}

/// Split an argument written `key=value`.
pub fn parse_assignment(arg: &str) -> (r: Option<(String, String)>)
    ensures
        match r {
            Some(kv) => assignment_of(arg@) == Some((kv.0@, kv.1@)),
            None => assignment_of(arg@) is None,
        },
{
    let n = arg.unicode_len();
    let mut found: Option<usize> = None;
    let mut i: usize = 0;
    while i < n
        invariant
            0 <= i <= n,
            n == arg@.len(),
            found matches Some(p) ==> p < i && arg@[p as int] == '=' && forall|q: int| 0 <= q < i && q != p ==> arg@[q] != '=',
            found is None ==> forall|q: int| 0 <= q < i ==> arg@[q] != '=',
        decreases n - i,
    {
        if arg.get_char(i) == '=' {
            if found.is_some() {
                proof {
                    let p = found->0;
                    assert forall|x: int| !(0 <= x < arg@.len() && arg@[x] == '=' && forall|q: int| 0 <= q < arg@.len() && q != x ==> arg@[q] != '=') by {
                        if 0 <= x < arg@.len() && arg@[x] == '=' {
                            if x != p as int {
                                assert(arg@[p as int] == '=');
                            } else {
                                assert(arg@[i as int] == '=');
                            }
                        }
                    }
                }
                return None;
            }
            found = Some(i);
        }
        i = i + 1;
    }
    match found {
        None => {
            assert forall|x: int| !(0 <= x < arg@.len() && arg@[x] == '=' && forall|q: int| 0 <= q < arg@.len() && q != x ==> arg@[q] != '=') by {}
            None
        },
        Some(p) => {
            proof {
                let c = choose|x: int| 0 <= x < arg@.len() && arg@[x] == '=' && forall|q: int| 0 <= q < arg@.len() && q != x ==> arg@[q] != '=';
                if c != p as int {
                    assert(arg@[c] == '=');
                }
            }
            let key = String::from_str(arg.substring_char(0, p));
            let value = String::from_str(arg.substring_char(p + 1, n));
            Some((key, value))
        },
    }
}

/// The type a suite declares for an argument; text for one it does not
/// declare.
pub open spec fn declared_type(suite: TestSuite, name: Seq<char>) -> ArgumentType {
    if suite.argument_names().contains(name) {
        ArgumentType::Float
    } else {
        ArgumentType::String
    }
}

fn declared_type_of(info: &TestSuiteInfo, name: &str) -> (r: ArgumentType)
    ensures
        (exists|i: int| 0 <= i < info.arguments@.len() && (#[trigger] info.arguments@[i]).0@ == name@) ==> exists|i: int|
            0 <= i < info.arguments@.len() && (#[trigger] info.arguments@[i]).0@ == name@ && r == info.arguments@[i].1.argument_type,
        !(exists|i: int| 0 <= i < info.arguments@.len() && (#[trigger] info.arguments@[i]).0@ == name@) ==> r == ArgumentType::String,
{
    let mut i: usize = 0;
    while i < info.arguments.len()
        invariant
            0 <= i <= info.arguments@.len(),
            forall|k: int| 0 <= k < i ==> (#[trigger] info.arguments@[k]).0@ != name@,
        decreases info.arguments@.len() - i,
    {
        if text_eq(info.arguments[i].0.as_str(), name) {
            return info.arguments[i].1.argument_type;
        }
        i = i + 1;
    }
    ArgumentType::String
}

/// Each `key=value` argument read as the type the suite declares for it.
pub fn typed_arguments(suite: &TestSuite, pairs: &Vec<(String, String)>) -> (r: Vec<(String, ArgumentValue)>)
    ensures
        r@.len() == pairs@.len(),
        forall|i: int| 0 <= i < r@.len() ==> (#[trigger] r@[i]).0@ == pairs@[i].0@ && typed_as(
            declared_type(*suite, pairs@[i].0@),
            pairs@[i].1@,
            r@[i].1,
        ),
{
    let info = suite.info();
    let mut out: Vec<(String, ArgumentValue)> = Vec::new();
    let mut i: usize = 0;
    while i < pairs.len()
        invariant
            0 <= i <= pairs@.len(),
            info.arguments@.map_values(|p: (String, TestArgument)| p.0@) == suite.argument_names(),
            forall|k: int| 0 <= k < info.arguments@.len() ==> (#[trigger] info.arguments@[k]).1.argument_type == ArgumentType::Float,
            out@.len() == i,
            forall|k: int| 0 <= k < i ==> (#[trigger] out@[k]).0@ == pairs@[k].0@ && typed_as(
                declared_type(*suite, pairs@[k].0@),
                pairs@[k].1@,
                out@[k].1,
            ),
        decreases pairs@.len() - i,
    {
        let name = &pairs[i].0;
        let ty = declared_type_of(&info, name.as_str());
        proof {
            let names = info.arguments@.map_values(|p: (String, TestArgument)| p.0@);
            if suite.argument_names().contains(name@) {
                let k = choose|k: int| 0 <= k < names.len() && names[k] == name@;
                assert(info.arguments@[k].0@ == name@);
            } else {
                if exists|k: int| 0 <= k < info.arguments@.len() && (#[trigger] info.arguments@[k]).0@ == name@ {
                    let k = choose|k: int| 0 <= k < info.arguments@.len() && (#[trigger] info.arguments@[k]).0@ == name@;
                    assert(names[k] == name@);
                }
            }
        }
        let value = ty.value_type(pairs[i].1.as_str());
        out.push((name.clone(), value));
        i = i + 1;
    }
    out
}


/// `typed` holds the arguments `args`, each split at its `=` and read as
/// the type `suite` declares for it.
pub open spec fn typed_from(suite: TestSuite, args: Seq<String>, typed: Seq<(String, ArgumentValue)>) -> bool {
    &&& typed.len() == args.len()
    &&& forall|k: int|
        0 <= k < args.len() ==> ((#[trigger] assignment_of(args[k]@)) matches Some(kv) && typed[k].0@ == kv.0 && typed_as(
            declared_type(suite, kv.0),
            kv.1,
            typed[k].1,
        ))
}

/// What a configuration request answers for suite `suite` of a standard.
pub open spec fn config_answer(suite: TestSuite, args: Seq<String>, r: Result<QcAnswer, QcFailure>) -> bool {
    if exists|k: int| 0 <= k < args.len() && #[trigger] assignment_of(args[k]@) is None {
        (r matches Err(QcFailure::InvalidArgument(a)) && exists|k: int|
            0 <= k < args.len() && #[trigger] assignment_of(args[k]@) is None && a@ == args[k]@)
    } else {
        exists|typed: Seq<(String, ArgumentValue)>|
            #[trigger] typed_from(suite, args, typed) && match r {
                Ok(QcAnswer::Config(name, c)) => name@ == suite.name_spec() && suite.scaffold_spec(typed) == Ok::<
                    ConfigStream,
                    crate::qartod::ScaffoldFault,
                >(c),
                Err(QcFailure::Scaffold(e)) => suite.scaffold_spec(typed) == Err::<ConfigStream, crate::qartod::ScaffoldFault>(e@),
                _ => false,
            }
    }
}

fn configure(suite: &TestSuite, args: &Vec<String>) -> (r: Result<QcAnswer, QcFailure>)
    ensures
        config_answer(*suite, args@, r),
{
    let mut pairs: Vec<(String, String)> = Vec::new();
    let mut i: usize = 0;
    while i < args.len()
        invariant
            0 <= i <= args@.len(),
            pairs@.len() == i,
            forall|k: int| 0 <= k < i ==> (#[trigger] assignment_of(args@[k]@)) == Some((pairs@[k].0@, pairs@[k].1@)),
        decreases args@.len() - i,
    {
        match parse_assignment(args[i].as_str()) {
            Some(kv) => pairs.push(kv),
            None => {
                return Err(QcFailure::InvalidArgument(args[i].clone()));
            },
        }
        i = i + 1;
    }
    let typed = typed_arguments(suite, &pairs);
    proof {
        assert(typed_from(*suite, args@, typed@));
        assert forall|k: int| !(0 <= k < args@.len() && #[trigger] assignment_of(args@[k]@) is None) by {}
    }
    match suite.scaffold(&typed) {
        Ok(config) => {
            let info = suite.info();
            Ok(QcAnswer::Config(info.name, config))
        },
        Err(e) => Err(QcFailure::Scaffold(e)),
    }
}

/// Answer a QC request: list a standard's suites, describe one, or
/// scaffold its configuration from `key=value` arguments.
pub fn run_qc(args: &QcArgs, library: &StandardsLibrary) -> (r: Result<QcAnswer, QcFailure>)
    ensures
        match args.command {
            QcCommands::List { standard_name } => match first_resolving(library.standards@, standard_name@) {
                None => (r matches Err(QcFailure::StandardNotFound(n)) && n@ == standard_name@),
                Some(i) => if library.standards@[i].qartod@.len() == 0 {
                    (r matches Err(QcFailure::NoSuites(n)) && n@ == standard_name@)
                } else {
                    (r matches Ok(QcAnswer::Suites(v)) && v@ == library.standards@[i].qartod@)
                },
            },
            QcCommands::Get { standard_name, test_suite } => match first_resolving(library.standards@, standard_name@) {
                None => (r matches Err(QcFailure::StandardNotFound(n)) && n@ == standard_name@),
                Some(i) => match first_with_slug(library.standards@[i].qartod@, test_suite@) {
                    None => (r matches Err(QcFailure::SuiteNotFound(n)) && n@ == test_suite@),
                    Some(j) => (r matches Ok(QcAnswer::Suite(t)) && t == library.standards@[i].qartod@[j]),
                },
            },
            QcCommands::Config { standard_name, test_suite, args: values } => match first_resolving(
                library.standards@,
                standard_name@,
            ) {
                None => (r matches Err(QcFailure::StandardNotFound(n)) && n@ == standard_name@),
                Some(i) => match first_with_slug(library.standards@[i].qartod@, test_suite@) {
                    None => (r matches Err(QcFailure::SuiteNotFound(n)) && n@ == test_suite@),
                    Some(j) => config_answer(library.standards@[i].qartod@[j], values@, r),
                },
            },
        },
{
    let (standard_name, slug) = match &args.command {
        QcCommands::List { standard_name } => (standard_name, None),
        QcCommands::Get { standard_name, test_suite } => (standard_name, Some(test_suite)),
        QcCommands::Config { standard_name, test_suite, .. } => (standard_name, Some(test_suite)),
    };
    let i = match position_of(&library.standards, standard_name.as_str()) {
        None => {
            return Err(QcFailure::StandardNotFound(standard_name.clone()));
        },
        Some(i) => i,
    };
    let standard = &library.standards[i];
    let slug = match slug {
        None => {
            if standard.qartod.len() == 0 {
                return Err(QcFailure::NoSuites(standard_name.clone()));
            }
            return Ok(QcAnswer::Suites(crate::standard::clone_suites(&standard.qartod)));
        },
        Some(slug) => slug,
    };
    let j = match find_suite(standard, slug.as_str()) {
        None => {
            return Err(QcFailure::SuiteNotFound(slug.clone()));
        },
        Some(j) => j,
    };
    match &args.command {
        QcCommands::Config { args: values, .. } => configure(&standard.qartod[j], values),
        _ => Ok(QcAnswer::Suite(standard.qartod[j].clone())),
    }
}

} // verus!
