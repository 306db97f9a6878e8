//! The display's unit system: feet and Fahrenheit (the default) or
//! meters and Celsius.
use vstd::prelude::*;

verus! {

#[derive(Debug, Clone, Copy, PartialEq, Eq, Structural)]
pub enum Units {
    Imperial,
    Metric,
}

impl Default for Units {
    fn default() -> (r: Self)
        ensures
            r == Units::Imperial,
    {
        Units::Imperial
    }
}

impl Units {
    pub fn temperature_label(self) -> (r: &'static str)
        ensures
            r == (match self {
                Units::Imperial => "F",
                Units::Metric => "C",
            }),
    {
        match self {
            Units::Imperial => "F",
            Units::Metric => "C",
        }
    }

    pub fn distance_label(self) -> (r: &'static str)
        ensures
            r == (match self {
                Units::Imperial => "ft",
                Units::Metric => "m",
            }),
    {
        match self {
            Units::Imperial => "ft",
            Units::Metric => "m",
        }
    }
}

} // verus!
