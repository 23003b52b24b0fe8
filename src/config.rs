//! Where and when a QC configuration applies.

use vstd::prelude::*;

verus! {

/// Time window for temporal constraints, as ISO 8601 texts.
#[derive(Debug)]
pub struct TimeWindow {
    pub starting: Option<String>,
    pub ending: Option<String>,
}

impl Default for TimeWindow {
    fn default() -> (r: Self)
        ensures
            r.starting is None,
            r.ending is None,
    {
        TimeWindow { starting: None, ending: None }
    }
}

/// The spatial and temporal constraints for tests.
#[derive(Debug)]
pub struct Context {
    pub window: TimeWindow,
    /// GeoJSON or WKT text
    pub region: Option<String>,
}

impl Default for Context {
    fn default() -> (r: Self)
        ensures
            r.window.starting is None,
            r.window.ending is None,
            r.region is None,
    {
        Context { window: TimeWindow { starting: None, ending: None }, region: None }
    }
}

impl Context {
    pub fn new(window: TimeWindow, region: Option<String>) -> (r: Self)
        ensures
            r.window == window,
            r.region == region,
    {
        Context { window, region }
    }

    /// A context together with the attributes that go with it.
    pub fn with_attrs(window: TimeWindow, region: Option<String>, attrs: Vec<(String, String)>) -> (r: (Self, Vec<(String, String)>))
        ensures
            r.0.window == window,
            r.0.region == region,
            r.1 == attrs,
    {
        (Context { window, region }, attrs)
    }
}

} // verus!
