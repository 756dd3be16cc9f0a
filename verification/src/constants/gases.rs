use crate::atmospherics::gasmixtures::gastype::{same_text, GasType};
use vstd::prelude::*;

verus! {

/// Oxygen.
pub fn o2() -> (gas: GasType)
    ensures
        gas == (GasType { id: "o2", name: "Oxygen", specific_heat: 20, fusion_power: 0 }),
{
    GasType { id: "o2", name: "Oxygen", specific_heat: 20, fusion_power: 0 }
}

/// Nitrogen.
pub fn n2() -> (gas: GasType)
    ensures
        gas == (GasType { id: "n2", name: "Nitrogen", specific_heat: 20, fusion_power: 0 }),
{
    GasType { id: "n2", name: "Nitrogen", specific_heat: 20, fusion_power: 0 }
}

/// Carbon Dioxide.
pub fn co2() -> (gas: GasType)
    ensures
        gas == (GasType { id: "co2", name: "Carbon Dioxide", specific_heat: 30, fusion_power: 0 }),
{
    GasType { id: "co2", name: "Carbon Dioxide", specific_heat: 30, fusion_power: 0 }
}

/// Plasma.
pub fn plasma() -> (gas: GasType)
    ensures
        gas == (GasType { id: "plasma", name: "Plasma", specific_heat: 200, fusion_power: 0 }),
{
    GasType { id: "plasma", name: "Plasma", specific_heat: 200, fusion_power: 0 }
}

/// Water Vapor.
pub fn h2o() -> (gas: GasType)
    ensures
        gas == (GasType {
            id: "water_vapor",
            name: "Water Vapor",
            specific_heat: 40,
            fusion_power: 8,
        }),
{
    GasType { id: "water_vapor", name: "Water Vapor", specific_heat: 40, fusion_power: 8 }
}

/// Hyper-noblium.
pub fn hypernob() -> (gas: GasType)
    ensures
        gas == (GasType { id: "nob", name: "Hyper-noblium", specific_heat: 2000, fusion_power: 0 }),
{
    GasType { id: "nob", name: "Hyper-noblium", specific_heat: 2000, fusion_power: 0 }
}

/// Nitrous Oxide.
pub fn n2o() -> (gas: GasType)
    ensures
        gas == (GasType { id: "n2o", name: "Nitrous Oxide", specific_heat: 40, fusion_power: 10 }),
{
    GasType { id: "n2o", name: "Nitrous Oxide", specific_heat: 40, fusion_power: 10 }
}

/// Nitryl.
pub fn no2() -> (gas: GasType)
    ensures
        gas == (GasType { id: "no2", name: "Nitryl", specific_heat: 20, fusion_power: 16 }),
{
    GasType { id: "no2", name: "Nitryl", specific_heat: 20, fusion_power: 16 }
}

/// Tritium.
pub fn trit() -> (gas: GasType)
    ensures
        gas == (GasType { id: "tritium", name: "Tritium", specific_heat: 10, fusion_power: 1 }),
{
    GasType { id: "tritium", name: "Tritium", specific_heat: 10, fusion_power: 1 }
}

/// BZ.
pub fn bz() -> (gas: GasType)
    ensures
        gas == (GasType { id: "bz", name: "BZ", specific_heat: 20, fusion_power: 8 }),
{
    GasType { id: "bz", name: "BZ", specific_heat: 20, fusion_power: 8 }
}

/// Stimulum.
pub fn stim() -> (gas: GasType)
    ensures
        gas == (GasType { id: "stim", name: "Stimulum", specific_heat: 5, fusion_power: 7 }),
{
    GasType { id: "stim", name: "Stimulum", specific_heat: 5, fusion_power: 7 }
}

/// Pluoxium.
pub fn pluox() -> (gas: GasType)
    ensures
        gas == (GasType {
            id: "pluox",
            name: "Pluoxium",
            specific_heat: 80,
            fusion_power: (-10) as isize,
        }),
{
    GasType { id: "pluox", name: "Pluoxium", specific_heat: 80, fusion_power: -10 }
}

/// Miasma.
pub fn miasma() -> (gas: GasType)
    ensures
        gas == (GasType { id: "miasma", name: "Miasma", specific_heat: 20, fusion_power: 0 }),
{
    GasType { id: "miasma", name: "Miasma", specific_heat: 20, fusion_power: 0 }
}

/// Every species of the catalog, each once.
pub open spec fn catalog_entries() -> Seq<GasType> {
    seq![
        GasType { id: "o2", name: "Oxygen", specific_heat: 20, fusion_power: 0 },
        GasType { id: "n2", name: "Nitrogen", specific_heat: 20, fusion_power: 0 },
        GasType { id: "co2", name: "Carbon Dioxide", specific_heat: 30, fusion_power: 0 },
        GasType { id: "plasma", name: "Plasma", specific_heat: 200, fusion_power: 0 },
        GasType { id: "water_vapor", name: "Water Vapor", specific_heat: 40, fusion_power: 8 },
        GasType { id: "nob", name: "Hyper-noblium", specific_heat: 2000, fusion_power: 0 },
        GasType { id: "n2o", name: "Nitrous Oxide", specific_heat: 40, fusion_power: 10 },
        GasType { id: "no2", name: "Nitryl", specific_heat: 20, fusion_power: 16 },
        GasType { id: "tritium", name: "Tritium", specific_heat: 10, fusion_power: 1 },
        GasType { id: "bz", name: "BZ", specific_heat: 20, fusion_power: 8 },
        GasType { id: "stim", name: "Stimulum", specific_heat: 5, fusion_power: 7 },
        GasType { id: "pluox", name: "Pluoxium", specific_heat: 80, fusion_power: (-10) as isize },
        GasType { id: "miasma", name: "Miasma", specific_heat: 20, fusion_power: 0 },
    ]
}

/// The catalog: every species that the simulation knows.
pub fn catalog() -> (gases: Vec<GasType>)
    ensures
        gases@ == catalog_entries(),
{
    let mut gases: Vec<GasType> = Vec::new();
    gases.push(o2());
    gases.push(n2());
    gases.push(co2());
    gases.push(plasma());
    gases.push(h2o());
    gases.push(hypernob());
    gases.push(n2o());
    gases.push(no2());
    gases.push(trit());
    gases.push(bz());
    gases.push(stim());
    gases.push(pluox());
    gases.push(miasma());
    assert(gases@ =~= catalog_entries());
    gases
}

/// The species of the catalog with the given id: the first entry that has it,
/// and nothing where no entry has it.
pub fn lookup(id: &str) -> (found: Option<GasType>)
    ensures
        match found {
            Some(gas) => exists|i: int|
                0 <= i < catalog_entries().len() && #[trigger] catalog_entries()[i] == gas
                    && gas.key() == id@ && forall|j: int|
                    0 <= j < i ==> (#[trigger] catalog_entries()[j]).key() != id@,
            None => forall|i: int|
                0 <= i < catalog_entries().len() ==> (#[trigger] catalog_entries()[i]).key()
                    != id@,
        },
{
    let gases: Vec<GasType> = catalog();
    let n: usize = gases.len();
    let mut i: usize = 0;
    while i < n
        invariant
            i <= n,
            n == gases@.len(),
            gases@ == catalog_entries(),
            forall|j: int| 0 <= j < i ==> (#[trigger] catalog_entries()[j]).key() != id@,
        decreases n - i,
    {
        if same_text(gases[i].id, id) {
            return Some(gases[i]);
        }
        i = i + 1;
    }
    None
}

} // verus!
