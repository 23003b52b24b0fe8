//! QARTOD quality-control test suites: their descriptions, the typed
//! arguments they take, and the configuration each one scaffolds.
//!
//! Real quantities are held at a fixed precision, as whole millionths
//! (a length of `1_000_000` is one metre).

use vstd::prelude::*;

use crate::parse::{int_of_text, parse_int, parse_real, real_of_text};
use crate::text::{text_eq, text_le, text_le_exec};

verus! {

/// One foot, in millionths of a metre.
pub const FOOT: i64 = 304_800;

/// How many millionths make one unit.
pub const MILLIONTHS: i64 = 1_000_000;

/// The declared type of a test-suite argument.
#[derive(Clone, Copy, Debug, PartialEq, Eq, Structural)]
pub enum ArgumentType {
    String,
    Bool,
    Int,
    Float,
}

/// `v` is what text `t` reads as under type `ty`: the text itself, `true`
/// for exactly "true", or the number it writes (zero when it writes none).
pub open spec fn typed_as(ty: ArgumentType, t: Seq<char>, v: ArgumentValue) -> bool {
    match ty {
        ArgumentType::String => v is String && v->String_0@ == t,
        ArgumentType::Bool => v == ArgumentValue::Bool(t == "true"@),
        ArgumentType::Int => v == ArgumentValue::Int(
            match int_of_text(t) {
                Some(x) => x,
                None => 0,
            },
        ),
        ArgumentType::Float => v == ArgumentValue::Float(
            match real_of_text(t) {
                Some(x) => x,
                None => 0,
            },
        ),
    }
}

impl ArgumentType {
    /// Read a value of this type from text; text that does not read as
    /// the type gives its zero value. Reals are read in plain decimal
    /// notation (see `real_of_text`): exponent forms and `inf` give zero.
    pub fn value_type(&self, value: &str) -> (r: ArgumentValue)
        ensures
            typed_as(*self, value@, r),
    {
        match self {
            ArgumentType::String => ArgumentValue::String(String::from_str(value)),
            ArgumentType::Bool => ArgumentValue::Bool(text_eq(value, "true")),
            ArgumentType::Int => ArgumentValue::Int(
                match parse_int(value) {
                    Some(v) => v,
                    None => 0,
                },
            ),
            ArgumentType::Float => ArgumentValue::Float(
                match parse_real(value) {
                    Some(v) => v,
                    None => 0,
                },
            ),
        }
    }
}

/// A typed argument value. A `Float` holds millionths.
#[derive(Debug)]
pub enum ArgumentValue {
    String(String),
    Bool(bool),
    Int(i64),
    Float(i64),
}

impl ArgumentValue {
    /// The type that this value carries.
    pub open spec fn kind(&self) -> ArgumentType {
        match self {
            ArgumentValue::String(_) => ArgumentType::String,
            ArgumentValue::Bool(_) => ArgumentType::Bool,
            ArgumentValue::Int(_) => ArgumentType::Int,
            ArgumentValue::Float(_) => ArgumentType::Float,
        }
    }

    pub fn value_kind(&self) -> (r: ArgumentType)
        ensures
            r == self.kind(),
    {
        match self {
            ArgumentValue::String(_) => ArgumentType::String,
            ArgumentValue::Bool(_) => ArgumentType::Bool,
            ArgumentValue::Int(_) => ArgumentType::Int,
            ArgumentValue::Float(_) => ArgumentType::Float,
        }
    }
}

/// The kinds of QARTOD tests.
#[derive(Clone, Copy, Debug, PartialEq, Eq, Structural)]
pub enum QartodTestTypes {
    Location,
    GrossRange,
    Climatology,
    Spike,
    RateOfChange,
    FlatLine,
    AttenuatedSignal,
    DensityInversion,
    NearestNeighbor,
}

impl QartodTestTypes {
    pub open spec fn label_spec(&self) -> Seq<char> {
        match self {
            QartodTestTypes::Location => "Location"@,
            QartodTestTypes::GrossRange => "Gross Range"@,
            QartodTestTypes::Climatology => "Climatology"@,
            QartodTestTypes::Spike => "Spike"@,
            QartodTestTypes::RateOfChange => "Rate of Change"@,
            QartodTestTypes::FlatLine => "Flat Line"@,
            QartodTestTypes::AttenuatedSignal => "Attenuated Signal"@,
            QartodTestTypes::DensityInversion => "Density Inversion"@,
            QartodTestTypes::NearestNeighbor => "Nearest Neighbor"@,
        }
    }

    /// Human readable name of the test kind.
    pub fn label(&self) -> (r: String)
        ensures
            r@ == self.label_spec(),
    {
        match self {
            QartodTestTypes::Location => String::from_str("Location"),
            QartodTestTypes::GrossRange => String::from_str("Gross Range"),
            QartodTestTypes::Climatology => String::from_str("Climatology"),
            QartodTestTypes::Spike => String::from_str("Spike"),
            QartodTestTypes::RateOfChange => String::from_str("Rate of Change"),
            QartodTestTypes::FlatLine => String::from_str("Flat Line"),
            QartodTestTypes::AttenuatedSignal => String::from_str("Attenuated Signal"),
            QartodTestTypes::DensityInversion => String::from_str("Density Inversion"),
            QartodTestTypes::NearestNeighbor => String::from_str("Nearest Neighbor"),
        }
    }
}

/// Gross range test: suspect and fail spans, as (low, high).
#[derive(Clone, Copy, Debug, PartialEq, Eq)]
pub struct GrossRangeTest {
    pub suspect_span: (i64, i64),
    pub fail_span: (i64, i64),
}

/// Location test: bounding box (min lon, min lat, max lon, max lat).
#[derive(Clone, Copy, Debug, PartialEq, Eq)]
pub struct LocationTest {
    pub bbox: (i64, i64, i64, i64),
}

/// Rate of change test threshold.
#[derive(Clone, Copy, Debug, PartialEq, Eq)]
pub struct RateOfChange {
    pub threshold: i64,
}

/// Spike test thresholds.
#[derive(Clone, Copy, Debug, PartialEq, Eq)]
pub struct Spike {
    pub suspect_threshold: i64,
    pub fail_threshold: i64,
}

/// Flat line test: a tolerance, and thresholds in whole seconds.
#[derive(Clone, Copy, Debug, PartialEq, Eq)]
pub struct FlatLine {
    pub tolerance: i64,
    pub suspect_threshold: i64,
    pub fail_threshold: i64,
}

/// The QARTOD tests configured for one stream.
#[derive(Clone, Copy, Debug, PartialEq, Eq)]
pub struct ConfigStreamQartod {
    pub gross_range_test: Option<GrossRangeTest>,
    pub location_test: Option<LocationTest>,
    pub rate_of_change_test: Option<RateOfChange>,
    pub spike_test: Option<Spike>,
    pub flat_line_test: Option<FlatLine>,
}

/// A QC configuration for one stream.
#[derive(Clone, Copy, Debug, PartialEq, Eq)]
pub struct ConfigStream {
    pub qartod: ConfigStreamQartod,
}


/// A declared argument of a test suite.
#[derive(Debug)]
pub struct TestArgument {
    pub argument_type: ArgumentType,
    pub description: String,
    pub required: bool,
}

impl Clone for TestArgument {
    fn clone(&self) -> (r: Self)
        ensures
            r == *self,
    {
        TestArgument {
            argument_type: self.argument_type,
            description: self.description.clone(),
            required: self.required,
        }
    }
}

/// What a test suite is, and what it takes.
#[derive(Debug)]
pub struct TestSuiteInfo {
    pub name: String,
    pub slug: String,
    pub summary: String,
    pub description: String,
    /// Declared arguments, by name, in the order they are listed.
    pub arguments: Vec<(String, TestArgument)>,
    pub test_types: Vec<QartodTestTypes>,
}

/// `"\n- "` followed by each label in turn.
pub open spec fn test_types_text(ts: Seq<QartodTestTypes>) -> Seq<char>
    decreases ts.len(),
{
    if ts.len() == 0 {
        Seq::empty()
    } else {
        test_types_text(ts.drop_last()) + "\n- "@ + ts.last().label_spec()
    }
}

/// One listed argument: its name, description, and whether it is required.
pub open spec fn argument_line(name: Seq<char>, a: TestArgument) -> Seq<char> {
    "\n- "@ + name + ": "@ + a.description@ + if a.required {
        " (required)"@
    } else {
        Seq::empty()
    }
}

pub open spec fn arguments_text(args: Seq<(String, TestArgument)>) -> Seq<char>
    decreases args.len(),
{
    if args.len() == 0 {
        Seq::empty()
    } else {
        arguments_text(args.drop_last()) + argument_line(args.last().0@, args.last().1)
    }
}

/// Where an argument named `name` goes among `s`: before the first whose
/// name does not sort below it.
pub open spec fn argument_insertion_point(s: Seq<(String, TestArgument)>, name: Seq<char>) -> int
    decreases s.len(),
{
    if s.len() == 0 {
        0
    } else if text_le(name, s[0].0@) {
        0
    } else {
        1 + argument_insertion_point(s.drop_first(), name)
    }
}

proof fn lemma_argument_insertion_point_bound(s: Seq<(String, TestArgument)>, name: Seq<char>)
    ensures
        0 <= argument_insertion_point(s, name) <= s.len(),
    decreases s.len(),
{
    if s.len() > 0 {
        lemma_argument_insertion_point_bound(s.drop_first(), name);
    }
}

/// The arguments sorted stably by name.
pub open spec fn sorted_arguments(args: Seq<(String, TestArgument)>) -> Seq<(String, TestArgument)>
    decreases args.len(),
{
    if args.len() == 0 {
        args
    } else {
        let rest = sorted_arguments(args.drop_first());
        rest.insert(argument_insertion_point(rest, args[0].0@), args[0])
    }
}

fn sort_arguments(args: &Vec<(String, TestArgument)>) -> (r: Vec<(String, TestArgument)>)
    ensures
        r@ == sorted_arguments(args@),
{
    let n = args.len();
    let mut out: Vec<(String, TestArgument)> = Vec::new();
    let mut i: usize = n;
    assert(args@.subrange(n as int, n as int) =~= Seq::<(String, TestArgument)>::empty());
    while i > 0
        invariant
            0 <= i <= n,
            n == args@.len(),
            out@ == sorted_arguments(args@.subrange(i as int, n as int)),
        decreases i,
    {
        let x = (args[i - 1].0.clone(), args[i - 1].1.clone());
        proof {
            let tail = args@.subrange(i - 1, n as int);
            assert(tail.drop_first() =~= args@.subrange(i as int, n as int));
            assert(tail[0] == x);
        }
        let mut j: usize = 0;
        assert(out@.subrange(0, out@.len() as int) =~= out@);
        while j < out.len() && !text_le_exec(x.0.as_str(), out[j].0.as_str())
            invariant
                0 <= j <= out@.len(),
                argument_insertion_point(out@, x.0@) == j + argument_insertion_point(
                    out@.subrange(j as int, out@.len() as int),
                    x.0@,
                ),
            decreases out@.len() - j,
        {
            let ghost sub = out@.subrange(j as int, out@.len() as int);
            assert(sub.drop_first() =~= out@.subrange(j + 1, out@.len() as int));
            j = j + 1;
        }
        proof {
            lemma_argument_insertion_point_bound(out@, x.0@);
        }
        out.insert(j, x);
        i = i - 1;
    }
    assert(args@.subrange(0, n as int) =~= args@);
    out
}

impl TestSuiteInfo {
    /// The one-line form: `name (slug): summary`.
    pub open spec fn summary_line_spec(&self) -> Seq<char> {
        self.name@ + " ("@ + self.slug@ + "): "@ + self.summary@
    }

    /// The full description that `details` writes.
    pub open spec fn details_spec(&self) -> Seq<char> {
        self.name@ + " ("@ + self.slug@ + ")\n\n"@ + self.summary@ + "\n\nTest types:"@
            + test_types_text(self.test_types@) + (if self.arguments@.len() > 0 {
            "\n\nArguments:"@ + arguments_text(sorted_arguments(self.arguments@))
        } else {
            Seq::empty()
        }) + "\n\n"@ + self.description@
    }

    /// One-line summary of the suite.
    pub fn summary_line(&self) -> (r: String)
        ensures
            r@ == self.summary_line_spec(),
    {
        let mut out = self.name.clone();
        out.append(" (");
        out.append(self.slug.as_str());
        out.append("): ");
        out.append(self.summary.as_str());
        out
    }

    /// Full description: name, slug, summary, test kinds, arguments in
    /// name order, and description.
    pub fn details(&self) -> (r: String)
        ensures
            r@ == self.details_spec(),
    {
        let mut out = self.name.clone();
        out.append(" (");
        out.append(self.slug.as_str());
        out.append(")\n\n");
        out.append(self.summary.as_str());
        out.append("\n\nTest types:");
        let ghost head = out@;
        let mut i: usize = 0;
        while i < self.test_types.len()
            invariant
                0 <= i <= self.test_types@.len(),
                out@ == head + test_types_text(self.test_types@.subrange(0, i as int)),
            decreases self.test_types@.len() - i,
        {
            assert(self.test_types@.subrange(0, i + 1).drop_last() =~= self.test_types@.subrange(0, i as int));
            out.append("\n- ");
            let label = self.test_types[i].label();
            out.append(label.as_str());
            i = i + 1;
        }
        assert(self.test_types@.subrange(0, i as int) =~= self.test_types@);
        if self.arguments.len() > 0 {
            out.append("\n\nArguments:");
            let arguments = sort_arguments(&self.arguments);
            let ghost head2 = out@;
            let mut j: usize = 0;
            while j < arguments.len()
                invariant
                    0 <= j <= arguments@.len(),
                    out@ == head2 + arguments_text(arguments@.subrange(0, j as int)),
                decreases arguments@.len() - j,
            {
                assert(arguments@.subrange(0, j + 1).drop_last() =~= arguments@.subrange(0, j as int));
                let (name, arg) = (&arguments[j].0, &arguments[j].1);
                out.append("\n- ");
                out.append(name.as_str());
                out.append(": ");
                out.append(arg.description.as_str());
                if arg.required {
                    out.append(" (required)");
                }
                j = j + 1;
            }
            assert(arguments@.subrange(0, j as int) =~= arguments@);
        }
        out.append("\n\n");
        out.append(self.description.as_str());
        out
    }
}


/// Notes behind the Gulf of Maine water level limits.
pub const GULF_OF_MAINE_NOTES: &'static str = "
### Gross range test configuration for Gulf of Maine (not New England Shelf)

#### Suspect Limits

For stations with tidal datums (might not want this approach because it will always take a while to get tidal datums, and tidal datums change):
- Upper limit of range: MHHW + 6 ft
- Lower limit of range: MLLW – 4.5 ft



For stations without tidal datums:
- If there are no tidal datums because the station was just installed: use VDatum to get MHHW and MLLW relative to navd88_meters at a point close to the sensor, and use the same upper and lower limits
    - Note: if it’s a station with river influence (like Bath), it might require some local expertise to set the limits. A solid approach is just taking the HW and LW measured over the course of the first week, and using something like HW + 10 ft and LW – 10 ft to be conservative
- If there are no tidal datums because the sensor bottoms out at low tide:
    - Lower limit: Use the dry bottom elevation
    - Upper limit: Use VDatum MHHW + 6 ft


#### Fail upper and lower limits
- Upper limit: distance to water is less than whatever the minimum sensing range is
- Lower limit: either hard bottom (if it’s a site that bottoms out at LW, or if we have a depth measurement at the site), or distance to water = maximum of sensing range

#### Notes

Top recorded water levels, in ft MHHW (and year)
- Gulf of Maine
    - Eastport: 5.07 (2020)
    - Bar Harbor: 4.43 (2024)
    - Portland: 4.67 (2024)
    - Boston: 4.89 (2018)
- New England Shelf
    - Chatham, MA: 4.28 (2014)
    - Newport, RI: 9.45 (1938)
    -New London, CT: 7.53 (1938)

Lowest navd88_meters
- Eastport: -3.46 ft MLLW  (this will have the largest variability)

### Rate of change test. Input as a rate.

- Suspect: 0.75 feet per 6 minutes
- Fail: 1 foot per 6 minutes

Rationale: max rate of change from tides in Eastport is 5.3 ft per hour (midtide on 1/13/2024), or ~0.5 ft per 6 minutes. Add 0.25 feet for a sustained wind-driven increase in water level.

May want to adjust this so it’s dependent on tidal range

### Spike test: Input as a magnitude that’s checked across a measurement and the two adjacent measurements.

Maybe default to same as rate of change test?

### Flat line test: If there’s some lack of variance over some amount of time, mark as suspect/fail

Suspect/Fail = how long do subsequent values stay within that threshold before it’s considered flat? (input as a time)

For example, if all measurements over the past 4 hours are within 10 cm of each other, fail the flatline test (then tolerance = 10 cm, and time = 4 hours)

When a sensor flatlines, the system voltage and temperature sensor may still be causing variation

Let’s start with 0.1 feet over 2 hours for suspect, and 0.1 feet over 3 hours for fail.

Rationale: During neap tides in Portland, you could see as little as +/- 0.25 ft per hour of variation in the 2 hours around slack tide (HW or LW)
";

/// A QC suite frozen in a knowledge document.
#[derive(Debug)]
pub struct StaticQc {
    pub name: String,
    pub summary: String,
    pub description: String,
    pub tests: ConfigStream,
}

impl Clone for StaticQc {
    fn clone(&self) -> (r: Self)
        ensures
            r == *self,
    {
        StaticQc {
            name: self.name.clone(),
            summary: self.summary.clone(),
            description: self.description.clone(),
            tests: self.tests,
        }
    }
}

/// A static QC suite together with the slug it was listed under.
#[derive(Debug)]
pub struct StaticQcTestSuite {
    pub slug: String,
    pub qc: StaticQc,
}

impl Clone for StaticQcTestSuite {
    fn clone(&self) -> (r: Self)
        ensures
            r == *self,
    {
        StaticQcTestSuite { slug: self.slug.clone(), qc: self.qc.clone() }
    }
}

/// A test suite attached to a standard.
#[derive(Debug)]
pub enum TestSuite {
    /// Water level tests for stations in the Gulf of Maine.
    GulfOfMaine,
    /// Water level tests for stations in Long Island Sound.
    LongIslandSound,
    /// A configuration given in full by a knowledge document.
    Static(StaticQcTestSuite),
}

impl Clone for TestSuite {
    fn clone(&self) -> (r: Self)
        ensures
            r == *self,
    {
        match self {
            TestSuite::GulfOfMaine => TestSuite::GulfOfMaine,
            TestSuite::LongIslandSound => TestSuite::LongIslandSound,
            TestSuite::Static(s) => TestSuite::Static(s.clone()),
        }
    }
}

/// Why a scaffold request was refused.
#[derive(Debug)]
pub enum ScaffoldError {
    /// A required argument is absent.
    MissingArgument(String),
    /// An argument cannot be taken as its declared type: name, expected, given.
    WrongArgumentType(String, ArgumentType, ArgumentType),
    /// The suite has no configuration to offer yet.
    Unsupported(String),
}

/// What a `ScaffoldError` says, over plain values.
pub enum ScaffoldFault {
    MissingArgument(Seq<char>),
    WrongArgumentType(Seq<char>, ArgumentType, ArgumentType),
    Unsupported(Seq<char>),
}

impl View for ScaffoldError {
    type V = ScaffoldFault;

    open spec fn view(&self) -> ScaffoldFault {
        match self {
            ScaffoldError::MissingArgument(n) => ScaffoldFault::MissingArgument(n@),
            ScaffoldError::WrongArgumentType(n, e, g) => ScaffoldFault::WrongArgumentType(n@, *e, *g),
            ScaffoldError::Unsupported(s) => ScaffoldFault::Unsupported(s@),
        }
    }
}

impl ScaffoldError {
    /// A sentence that explains the error.
    pub fn message(&self) -> (r: String)
        ensures
            r@ == match self {
                ScaffoldError::MissingArgument(n) => "Missing required argument: "@ + n@,
                ScaffoldError::WrongArgumentType(n, _, _) => "Wrong type for argument: "@ + n@,
                ScaffoldError::Unsupported(s) => "No configuration can be scaffolded yet by: "@ + s@,
            },
    {
        match self {
            ScaffoldError::MissingArgument(name) => {
                let mut out = String::from_str("Missing required argument: ");
                out.append(name.as_str());
                out
            },
            ScaffoldError::WrongArgumentType(name, _, _) => {
                let mut out = String::from_str("Wrong type for argument: ");
                out.append(name.as_str());
                out
            },
            ScaffoldError::Unsupported(slug) => {
                let mut out = String::from_str("No configuration can be scaffolded yet by: ");
                out.append(slug.as_str());
                out
            },
        }
    }
}

/// The value given for `name`: the first pair that carries it.
pub open spec fn lookup(args: Seq<(String, ArgumentValue)>, name: Seq<char>) -> Option<ArgumentValue>
    decreases args.len(),
{
    if args.len() == 0 {
        None
    } else if args[0].0@ == name {
        Some(args[0].1)
    } else {
        lookup(args.drop_first(), name)
    }
}

fn find_argument<'a>(args: &'a Vec<(String, ArgumentValue)>, name: &str) -> (r: Option<&'a ArgumentValue>)
    ensures
        r matches Some(v) ==> lookup(args@, name@) == Some(*v),
        r is None ==> lookup(args@, name@) is None,
{
    let mut i: usize = 0;
    assert(args@.subrange(0, args@.len() as int) =~= args@);
    while i < args.len()
        invariant
            0 <= i <= args@.len(),
            lookup(args@, name@) == lookup(args@.subrange(i as int, args@.len() as int), name@),
        decreases args@.len() - i,
    {
        let ghost rest = args@.subrange(i as int, args@.len() as int);
        assert(rest.drop_first() =~= args@.subrange(i + 1, args@.len() as int));
        if text_eq(args[i].0.as_str(), name) {
            return Some(&args[i].1);
        }
        i = i + 1;
    }
    None
}

/// The smallest and largest values a real quantity can hold.
pub open spec fn clamped(x: int) -> i64 {
    if x < i64::MIN {
        i64::MIN
    } else if x > i64::MAX {
        i64::MAX
    } else {
        x as i64
    }
}

/// The nearest value that a real can hold.
pub fn clamp_real(x: i128) -> (r: i64)
    ensures
        r == clamped(x as int),
{
    if x < i64::MIN as i128 {
        i64::MIN
    } else if x > i64::MAX as i128 {
        i64::MAX
    } else {
        x as i64
    }
}

/// A value taken as a real: a `Float` as it is, an `Int` as that many
/// whole units (held to the nearest representable value), a text as the
/// real it writes, or zero when it writes none. A flag is no real.
pub open spec fn as_real(v: ArgumentValue) -> Option<i64> {
    match v {
        ArgumentValue::Float(x) => Some(x),
        ArgumentValue::Int(i) => Some(clamped(i * MILLIONTHS)),
        ArgumentValue::String(t) => Some(
            match real_of_text(t@) {
                Some(x) => x,
                None => 0,
            },
        ),
        ArgumentValue::Bool(_) => None,
    }
}

fn real_value(v: &ArgumentValue) -> (r: Option<i64>)
    ensures
        r == as_real(*v),
{
    match v {
        ArgumentValue::Float(x) => Some(*x),
        ArgumentValue::Int(i) => {
            let wide = *i as i128;
            assert(-9_223_372_036_854_775_808 * 1_000_000 <= wide * 1_000_000 <= 9_223_372_036_854_775_807
                * 1_000_000) by (nonlinear_arith)
                requires
                    -9_223_372_036_854_775_808 <= wide <= 9_223_372_036_854_775_807,
            ;
            Some(clamp_real(wide * (MILLIONTHS as i128)))
        },
        ArgumentValue::String(t) => Some(
            match parse_real(t.as_str()) {
                Some(x) => x,
                None => 0,
            },
        ),
        ArgumentValue::Bool(_) => None,
    }
}

/// Gulf of Maine margins and thresholds, in millionths of a metre.
/// 4.5 feet below the lower low water datum.
pub const LOW_MARGIN: i64 = 1_371_600;
/// 6 feet above the higher high water datum.
pub const HIGH_MARGIN: i64 = 1_828_800;
/// 0.75 feet.
pub const RATE_THRESHOLD: i64 = 228_600;
/// 1.5 feet.
pub const SPIKE_FAIL_THRESHOLD: i64 = 457_200;
/// 0.1 feet.
pub const FLAT_LINE_TOLERANCE: i64 = 30_480;
/// Flat line durations, in seconds.
pub const TWO_HOURS: i64 = 2 * 60 * 60;
pub const THREE_HOURS: i64 = 3 * 60 * 60;

/// The Gulf of Maine configuration for the given datums.
pub open spec fn gulf_of_maine_config(mllw: i64, mhhw: i64) -> ConfigStream {
    let span = (clamped(mllw - LOW_MARGIN), clamped(mhhw + HIGH_MARGIN));
    ConfigStream {
        qartod: ConfigStreamQartod {
            gross_range_test: Some(GrossRangeTest { suspect_span: span, fail_span: span }),
            location_test: None,
            rate_of_change_test: Some(RateOfChange { threshold: RATE_THRESHOLD }),
            spike_test: Some(Spike { suspect_threshold: RATE_THRESHOLD, fail_threshold: SPIKE_FAIL_THRESHOLD }),
            flat_line_test: Some(
                FlatLine { tolerance: FLAT_LINE_TOLERANCE, suspect_threshold: TWO_HOURS, fail_threshold: THREE_HOURS },
            ),
        },
    }
}


/// The first of `names` that `args` does not give, if any.
pub open spec fn first_missing(names: Seq<Seq<char>>, args: Seq<(String, ArgumentValue)>) -> Option<Seq<char>>
    decreases names.len(),
{
    if names.len() == 0 {
        None
    } else if lookup(args, names[0]) is None {
        Some(names[0])
    } else {
        first_missing(names.drop_first(), args)
    }
}

/// The test kinds that a configuration holds, in field order.
pub open spec fn tests_in_config_spec(c: ConfigStream) -> Seq<QartodTestTypes> {
    (if c.qartod.gross_range_test is Some { seq![QartodTestTypes::GrossRange] } else { seq![] })
        + (if c.qartod.location_test is Some { seq![QartodTestTypes::Location] } else { seq![] })
        + (if c.qartod.rate_of_change_test is Some { seq![QartodTestTypes::RateOfChange] } else { seq![] })
        + (if c.qartod.spike_test is Some { seq![QartodTestTypes::Spike] } else { seq![] })
        + (if c.qartod.flat_line_test is Some { seq![QartodTestTypes::FlatLine] } else { seq![] })
}

impl QartodTestTypes {
    /// The test kinds that a configuration holds.
    pub fn tests_in_config(c: &ConfigStream) -> (r: Vec<QartodTestTypes>)
        ensures
            r@ == tests_in_config_spec(*c),
    {
        let mut out: Vec<QartodTestTypes> = Vec::new();
        if c.qartod.gross_range_test.is_some() {
            out.push(QartodTestTypes::GrossRange);
        }
        if c.qartod.location_test.is_some() {
            out.push(QartodTestTypes::Location);
        }
        if c.qartod.rate_of_change_test.is_some() {
            out.push(QartodTestTypes::RateOfChange);
        }
        if c.qartod.spike_test.is_some() {
            out.push(QartodTestTypes::Spike);
        }
        if c.qartod.flat_line_test.is_some() {
            out.push(QartodTestTypes::FlatLine);
        }
        assert(out@ =~= tests_in_config_spec(*c));
        out
    }
}

fn float_argument(name: &str, description: &str) -> (r: (String, TestArgument))
    ensures
        r.0@ == name@,
        r.1.description@ == description@,
        r.1.required,
        r.1.argument_type == ArgumentType::Float,
{
    (String::from_str(name), TestArgument {
        argument_type: ArgumentType::Float,
        description: String::from_str(description),
        required: true,
    })
}

impl TestSuite {
    pub open spec fn is_parameterized(&self) -> bool {
        !(self is Static)
    }

    pub open spec fn slug_spec(&self) -> Seq<char> {
        match self {
            TestSuite::GulfOfMaine => "gulf_of_maine"@,
            TestSuite::LongIslandSound => "long_island_sound"@,
            TestSuite::Static(s) => s.slug@,
        }
    }

    pub open spec fn name_spec(&self) -> Seq<char> {
        match self {
            TestSuite::GulfOfMaine => "Gulf of Maine"@,
            TestSuite::LongIslandSound => "Long Island Sound"@,
            TestSuite::Static(s) => s.qc.name@,
        }
    }

    pub open spec fn summary_spec(&self) -> Seq<char> {
        match self {
            TestSuite::GulfOfMaine => "Water level tests for stations in the Gulf of Maine developed by Hannah Baranes"@,
            TestSuite::LongIslandSound => "Water level tests for stations in Long Island Sound"@,
            TestSuite::Static(s) => s.qc.summary@,
        }
    }

    pub open spec fn description_spec(&self) -> Seq<char> {
        match self {
            TestSuite::GulfOfMaine => GULF_OF_MAINE_NOTES@,
            TestSuite::LongIslandSound => "Water level tests for Long Island Sound by Anna"@,
            TestSuite::Static(s) => s.qc.description@,
        }
    }

    /// The declared arguments, listed by name.
    pub open spec fn argument_names(&self) -> Seq<Seq<char>> {
        match self {
            TestSuite::GulfOfMaine => seq!["mhhw"@, "mllw"@],
            TestSuite::LongIslandSound => seq!["mllw"@],
            TestSuite::Static(_) => seq![],
        }
    }

    /// The required arguments, in the order they are checked.
    pub open spec fn required_arguments(&self) -> Seq<Seq<char>> {
        match self {
            TestSuite::GulfOfMaine => seq!["mllw"@, "mhhw"@],
            TestSuite::LongIslandSound => seq!["mllw"@],
            TestSuite::Static(_) => seq![],
        }
    }

    pub open spec fn test_types_spec(&self) -> Seq<QartodTestTypes> {
        match self {
            TestSuite::Static(s) => tests_in_config_spec(s.qc.tests),
            _ => seq![
                QartodTestTypes::GrossRange,
                QartodTestTypes::Spike,
                QartodTestTypes::RateOfChange,
                QartodTestTypes::FlatLine,
            ],
        }
    }

    /// Describe the suite.
    pub fn info(&self) -> (r: TestSuiteInfo)
        ensures
            r.name@ == self.name_spec(),
            r.slug@ == self.slug_spec(),
            r.summary@ == self.summary_spec(),
            r.description@ == self.description_spec(),
            r.arguments@.map_values(|p: (String, TestArgument)| p.0@) == self.argument_names(),
            forall|i: int| 0 <= i < r.arguments@.len() ==> (#[trigger] r.arguments@[i]).1.required
                && r.arguments@[i].1.argument_type == ArgumentType::Float,
            r.test_types@ == self.test_types_spec(),
    {
        let water_level_types = vec![
            QartodTestTypes::GrossRange,
            QartodTestTypes::Spike,
            QartodTestTypes::RateOfChange,
            QartodTestTypes::FlatLine,
        ];
        match self {
            TestSuite::GulfOfMaine => {
                let arguments = vec![
                    float_argument("mhhw", "Mean higher high water elevation in NAVD 88 meters"),
                    float_argument("mllw", "Mean lower low water elevation in NAVD 88 meters"),
                ];
                let r = TestSuiteInfo {
                    name: String::from_str("Gulf of Maine"),
                    slug: String::from_str("gulf_of_maine"),
                    summary: String::from_str(
                        "Water level tests for stations in the Gulf of Maine developed by Hannah Baranes",
                    ),
                    description: String::from_str(GULF_OF_MAINE_NOTES),
                    arguments,
                    test_types: water_level_types,
                };
                assert(r.arguments@.map_values(|p: (String, TestArgument)| p.0@) =~= self.argument_names());
                assert(r.test_types@ =~= self.test_types_spec());
                r
            },
            TestSuite::LongIslandSound => {
                let arguments = vec![
                    float_argument("mllw", "Mean lower low water elevation in NAVD 88 meters"),
                ];
                let r = TestSuiteInfo {
                    name: String::from_str("Long Island Sound"),
                    slug: String::from_str("long_island_sound"),
                    summary: String::from_str("Water level tests for stations in Long Island Sound"),
                    description: String::from_str("Water level tests for Long Island Sound by Anna"),
                    arguments,
                    test_types: water_level_types,
                };
                assert(r.arguments@.map_values(|p: (String, TestArgument)| p.0@) =~= self.argument_names());
                assert(r.test_types@ =~= self.test_types_spec());
                r
            },
            TestSuite::Static(s) => {
                let r = TestSuiteInfo {
                    name: s.qc.name.clone(),
                    slug: s.slug.clone(),
                    summary: s.qc.summary.clone(),
                    description: s.qc.description.clone(),
                    arguments: Vec::new(),
                    test_types: QartodTestTypes::tests_in_config(&s.qc.tests),
                };
                assert(r.arguments@.map_values(|p: (String, TestArgument)| p.0@) =~= self.argument_names());
                r
            },
        }
    }

    /// The outcome of scaffolding with `args`, over plain values.
    pub open spec fn scaffold_spec(&self, args: Seq<(String, ArgumentValue)>) -> Result<ConfigStream, ScaffoldFault> {
        match self {
            TestSuite::Static(s) => Ok(s.qc.tests),
            _ => if first_missing(self.required_arguments(), args) is Some {
                Err(ScaffoldFault::MissingArgument(first_missing(self.required_arguments(), args)->0))
            } else {
                let low = lookup(args, "mllw"@)->0;
                if as_real(low) is None {
                    Err(ScaffoldFault::WrongArgumentType("mllw"@, ArgumentType::Float, low.kind()))
                } else if self is LongIslandSound {
                    Err(ScaffoldFault::Unsupported("long_island_sound"@))
                } else {
                    let high = lookup(args, "mhhw"@)->0;
                    if as_real(high) is None {
                        Err(ScaffoldFault::WrongArgumentType("mhhw"@, ArgumentType::Float, high.kind()))
                    } else {
                        Ok(gulf_of_maine_config(as_real(low)->0, as_real(high)->0))
                    }
                }
            },
        }
    }

    /// Turn typed arguments into a configuration. A static suite returns
    /// its configuration whatever the arguments.
    pub fn scaffold(&self, args: &Vec<(String, ArgumentValue)>) -> (r: Result<ConfigStream, ScaffoldError>)
        ensures
            match r {
                Ok(c) => self.scaffold_spec(args@) == Ok::<ConfigStream, ScaffoldFault>(c),
                Err(e) => self.scaffold_spec(args@) == Err::<ConfigStream, ScaffoldFault>(e@),
            },
    {
        if let TestSuite::Static(s) = self {
            return Ok(s.qc.tests);
        }
        proof {
            reveal_with_fuel(first_missing, 3);
            assert(seq!["mllw"@, "mhhw"@].drop_first() =~= seq!["mhhw"@]);
            assert(seq!["mllw"@].drop_first() =~= Seq::<Seq<char>>::empty());
            assert(seq!["mhhw"@].drop_first() =~= Seq::<Seq<char>>::empty());
        }
        let low = find_argument(args, "mllw");
        let high = find_argument(args, "mhhw");
        let low = match low {
            None => {
                return Err(ScaffoldError::MissingArgument(String::from_str("mllw")));
            },
            Some(v) => v,
        };
        let is_gulf = match self {
            TestSuite::GulfOfMaine => true,
            _ => false,
        };
        if is_gulf && high.is_none() {
            return Err(ScaffoldError::MissingArgument(String::from_str("mhhw")));
        }
        let low_real = match real_value(low) {
            None => {
                return Err(ScaffoldError::WrongArgumentType(String::from_str("mllw"), ArgumentType::Float, low.value_kind()));
            },
            Some(x) => x,
        };
        if !is_gulf {
            return Err(ScaffoldError::Unsupported(String::from_str("long_island_sound")));
        }
        let high = match high {
            None => {
                return Err(ScaffoldError::MissingArgument(String::from_str("mhhw")));
            },
            Some(v) => v,
        };
        let high_real = match real_value(high) {
            None => {
                return Err(ScaffoldError::WrongArgumentType(String::from_str("mhhw"), ArgumentType::Float, high.value_kind()));
            },
            Some(x) => x,
        };
        let span = (clamp_real(low_real as i128 - LOW_MARGIN as i128), clamp_real(high_real as i128 + HIGH_MARGIN as i128));
        Ok(ConfigStream {
            qartod: ConfigStreamQartod {
                gross_range_test: Some(GrossRangeTest { suspect_span: span, fail_span: span }),
                location_test: None,
                rate_of_change_test: Some(RateOfChange { threshold: RATE_THRESHOLD }),
                spike_test: Some(Spike { suspect_threshold: RATE_THRESHOLD, fail_threshold: SPIKE_FAIL_THRESHOLD }),
                flat_line_test: Some(
                    FlatLine { tolerance: FLAT_LINE_TOLERANCE, suspect_threshold: TWO_HOURS, fail_threshold: THREE_HOURS },
                ),
            },
        })
    }
}


proof fn lemma_first_missing(names: Seq<Seq<char>>, args: Seq<(String, ArgumentValue)>)
    ensures
        first_missing(names, args) is Some <==> exists|i: int| 0 <= i < names.len() && lookup(args, #[trigger] names[i]) is None,
        first_missing(names, args) is Some ==> names.contains(first_missing(names, args)->0)
            && lookup(args, first_missing(names, args)->0) is None,
    decreases names.len(),
{
    if names.len() > 0 {
        let rest = names.drop_first();
        lemma_first_missing(rest, args);
        if lookup(args, names[0]) is None {
            assert(names[0] == names[0]);
        } else {
            if exists|i: int| 0 <= i < names.len() && lookup(args, #[trigger] names[i]) is None {
                let i = choose|i: int| 0 <= i < names.len() && lookup(args, #[trigger] names[i]) is None;
                assert(rest[i - 1] == names[i]);
            }
            if first_missing(rest, args) is Some {
                let j = choose|j: int| 0 <= j < rest.len() && rest[j] == first_missing(rest, args)->0;
                assert(names[j + 1] == rest[j]);
            }
        }
    }
}

/// Scaffolding a parameterized suite fails for a missing argument exactly
/// when one of its required arguments is absent; the argument it names is
/// then required and absent, the first in the order they are checked.
pub proof fn lemma_missing_argument_iff_absent(suite: TestSuite, args: Seq<(String, ArgumentValue)>)
    requires
        suite.is_parameterized(),
    ensures
        (suite.scaffold_spec(args) is Err && suite.scaffold_spec(args)->Err_0 is MissingArgument)
            <==> exists|i: int| 0 <= i < suite.required_arguments().len()
                && lookup(args, #[trigger] suite.required_arguments()[i]) is None,
        suite.scaffold_spec(args) is Err && suite.scaffold_spec(args)->Err_0 is MissingArgument ==> {
            let n = suite.scaffold_spec(args)->Err_0->MissingArgument_0;
            suite.required_arguments().contains(n) && lookup(args, n) is None
        },
{
    lemma_first_missing(suite.required_arguments(), args);
}

/// The water level suites, by the standard they apply to.
pub fn water_level_test_suites() -> (r: Vec<(String, Vec<TestSuite>)>)
    ensures
        r@.len() == 1,
        r@[0].0@ == "sea_surface_height_above_geopotential_datum"@,
        r@[0].1@ == seq![TestSuite::GulfOfMaine, TestSuite::LongIslandSound],
{
    let r = vec![
        (
            String::from_str("sea_surface_height_above_geopotential_datum"),
            vec![TestSuite::GulfOfMaine, TestSuite::LongIslandSound],
        ),
    ];
    assert(r@[0].1@ =~= seq![TestSuite::GulfOfMaine, TestSuite::LongIslandSound]);
    r
}

/// Every built-in parameterized suite, by the standard it applies to.
pub fn test_suites() -> (r: Vec<(String, Vec<TestSuite>)>)
    ensures
        r@.len() == 1,
        r@[0].0@ == "sea_surface_height_above_geopotential_datum"@,
        r@[0].1@ == seq![TestSuite::GulfOfMaine, TestSuite::LongIslandSound],
{
    water_level_test_suites()
}

} // verus!
