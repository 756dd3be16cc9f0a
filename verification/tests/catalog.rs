use libatmos::atmospherics::gasmixtures::basegas::BaseGas;
use libatmos::atmospherics::gasmixtures::gastype::{same_text, GasType};
use libatmos::constants::gases;
use libatmos::constants::num;

#[test]
fn the_catalog_holds_every_species_once() {
    let catalog = gases::catalog();
    assert_eq!(catalog.len(), 13);
    for (i, one) in catalog.iter().enumerate() {
        for (j, other) in catalog.iter().enumerate() {
            assert_eq!(one.same_species(other), i == j);
        }
    }
    assert_eq!(catalog[0], gases::o2());
    assert_eq!(catalog[12], gases::miasma());
}

#[test]
fn the_species_have_their_specific_heats_and_fusion_powers() {
    assert_eq!(
        gases::o2(),
        GasType { id: "o2", name: "Oxygen", specific_heat: 20, fusion_power: 0 }
    );
    assert_eq!(gases::n2().specific_heat, 20);
    assert_eq!(gases::co2().specific_heat, 30);
    assert_eq!(gases::plasma().specific_heat, 200);
    assert_eq!(
        gases::h2o(),
        GasType { id: "water_vapor", name: "Water Vapor", specific_heat: 40, fusion_power: 8 }
    );
    assert_eq!(gases::hypernob().id, "nob");
    assert_eq!(gases::hypernob().specific_heat, 2000);
    assert_eq!(gases::n2o().fusion_power, 10);
    assert_eq!(gases::no2().fusion_power, 16);
    assert_eq!(gases::trit().id, "tritium");
    assert_eq!(gases::trit().specific_heat, 10);
    assert_eq!(gases::bz().specific_heat, 20);
    assert_eq!(gases::stim().specific_heat, 5);
    assert_eq!(gases::pluox().fusion_power, -10);
    assert_eq!(gases::miasma().name, "Miasma");
}

#[test]
fn lookup_finds_a_species_by_its_id() {
    assert_eq!(gases::lookup("plasma"), Some(gases::plasma()));
    assert_eq!(gases::lookup("water_vapor"), Some(gases::h2o()));
    assert_eq!(gases::lookup("miasma"), Some(gases::miasma()));
    assert_eq!(gases::lookup("Plasma"), None);
    assert_eq!(gases::lookup("h2o"), None);
    assert_eq!(gases::lookup(""), None);
}

#[test]
fn species_are_the_same_when_their_ids_are() {
    let oxygen = gases::o2();
    let renamed = GasType { id: "o2", name: "Dioxygen", specific_heat: 21, fusion_power: 1 };
    assert!(oxygen.same_species(&renamed));
    assert!(!oxygen.same_species(&gases::n2()));
    assert!(same_text("", ""));
    assert!(same_text("nob", "nob"));
    assert!(!same_text("nob", "no"));
    assert!(!same_text("no2", "n2o"));
    assert!(!same_text("\u{e9}", "e"));
}

#[test]
fn a_species_is_shown_by_its_name_and_id() {
    assert_eq!(gases::o2().to_string(), "Oxygen (o2)");
    assert_eq!(gases::h2o().to_string(), "Water Vapor (water_vapor)");
    let bare = GasType { id: "", name: "", specific_heat: 0, fusion_power: 0 };
    assert_eq!(bare.to_string(), " ()");
}

#[test]
fn a_base_gas_borrows_its_names() {
    let id = String::from("o3");
    let name = String::from("Ozone");
    let gas = BaseGas { id: &id, name: &name, specific_heat: 25, fusion_power: 0 };
    let copy = gas;
    assert_eq!(gas.id, "o3");
    assert_eq!(copy.name, "Ozone");
    assert_eq!(copy.specific_heat, 25);
    assert_eq!(copy.fusion_power, 0);
}

#[test]
fn the_constants_are_in_the_units_of_the_library() {
    assert_eq!(num::SCALE, 1000);
    assert_eq!(num::R_IDEAL_GAS_EQUATION as f64 / num::SCALE as f64, 8.31);
    assert_eq!(num::ONE_ATMOSPHERE as f64 / num::SCALE as f64, 101.325);
    assert_eq!(num::TCMB as f64 / num::SCALE as f64, 2.7);
    assert_eq!(num::T0C as f64 / num::SCALE as f64, 273.15);
    assert_eq!(num::T20C as f64 / num::SCALE as f64, 293.15);
    assert_eq!(num::MINIMUM_TEMP_DELTA_TO_CONSIDER as f64 / num::SCALE as f64, 0.5);
    assert_eq!(num::TANK_LEAK_PRESSURE, 30 * 101_325);
    assert_eq!(num::TANK_RUPTURE_PRESSURE, 35 * 101_325);
    assert_eq!(num::TANK_FRAGMENT_PRESSURE, 40 * 101_325);
    assert_eq!(num::TANK_FRAGMENT_SCALE, 6 * 101_325);
    assert_eq!(num::TANK_MAX_RELEASE_PRESSURE, 3 * 101_325);
}
