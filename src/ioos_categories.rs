//! The IOOS categories that ERDDAP knows.

use vstd::prelude::*;

verus! {

/// The ERDDAP category names, in alphabetical order.
pub open spec fn erddap_category_names() -> Seq<Seq<char>> {
    seq![
        "Bathymetry"@,
        "Biology"@,
        "Bottom Character"@,
        "CO2"@,
        "Colored Dissolved Organic Matter"@,
        "Contaminants"@,
        "Currents"@,
        "Dissolved Nutrients"@,
        "Dissolved O2"@,
        "Ecology"@,
        "Fish Abundance"@,
        "Fish Species"@,
        "Heat Flux"@,
        "Hydrology"@,
        "Ice Distribution"@,
        "Identifier"@,
        "Location"@,
        "Meteorology"@,
        "Ocean Color"@,
        "Optical Properties"@,
        "Other"@,
        "Pathogens"@,
        "Physical Oceanography"@,
        "Phytoplankton Species"@,
        "Pressure"@,
        "Productivity"@,
        "Quality"@,
        "Salinity"@,
        "Sea Level"@,
        "Soils"@,
        "Statistics"@,
        "Stream Flow"@,
        "Surface Waves"@,
        "Taxonomy"@,
        "Temperature"@,
        "Time"@,
        "Total Suspended Matter"@,
        "Unknown"@,
        "Wind"@,
        "Zooplankton Species"@,
        "Zooplankton Abundance"@,
    ]
}

/// The categories that ERDDAP accepts for `ioos_category`.
pub fn erddap_categories() -> (r: Vec<String>)
    ensures
        r.deep_view() == erddap_category_names(),
{
    let r = vec![
        String::from_str("Bathymetry"),
        String::from_str("Biology"),
        String::from_str("Bottom Character"),
        String::from_str("CO2"),
        String::from_str("Colored Dissolved Organic Matter"),
        String::from_str("Contaminants"),
        String::from_str("Currents"),
        String::from_str("Dissolved Nutrients"),
        String::from_str("Dissolved O2"),
        String::from_str("Ecology"),
        String::from_str("Fish Abundance"),
        String::from_str("Fish Species"),
        String::from_str("Heat Flux"),
        String::from_str("Hydrology"),
        String::from_str("Ice Distribution"),
        String::from_str("Identifier"),
        String::from_str("Location"),
        String::from_str("Meteorology"),
        String::from_str("Ocean Color"),
        String::from_str("Optical Properties"),
        String::from_str("Other"),
        String::from_str("Pathogens"),
        String::from_str("Physical Oceanography"),
        String::from_str("Phytoplankton Species"),
        String::from_str("Pressure"),
        String::from_str("Productivity"),
        String::from_str("Quality"),
        String::from_str("Salinity"),
        String::from_str("Sea Level"),
        String::from_str("Soils"),
        String::from_str("Statistics"),
        String::from_str("Stream Flow"),
        String::from_str("Surface Waves"),
        String::from_str("Taxonomy"),
        String::from_str("Temperature"),
        String::from_str("Time"),
        String::from_str("Total Suspended Matter"),
        String::from_str("Unknown"),
        String::from_str("Wind"),
        String::from_str("Zooplankton Species"),
        String::from_str("Zooplankton Abundance"),
    ];
    assert(r.deep_view() =~= erddap_category_names());
    r
}

} // verus!
