use vstd::prelude::*;

verus! {

/// Identifies a gas by borrowed names, for callers that build species at run time.
#[derive(Clone, Copy, Debug)]
pub struct BaseGas<'a> {
    /// Short identifier.
    pub id: &'a str,
    /// Display name.
    pub name: &'a str,
    /// Energy needed to heat one mole by one kelvin; higher is harder to heat or cool.
    pub specific_heat: u32,
    /// How much the gas accelerates a fusion reaction.
    pub fusion_power: u32,
}

} // verus!
