use libatmos::atmospherics::gasmixtures::composition::Portion;
use libatmos::atmospherics::gasmixtures::gasmixture::GasMixture;
use libatmos::constants::gases;
use libatmos::constants::num;
use libatmos::errors::AtmosError;

/// Moles or kelvin as the thousandths that the library counts in.
fn milli(value: f64) -> u64 {
    (value * 1000.0).round() as u64
}

/// Thousandths as moles, kelvin, joules per kelvin or kilopascals.
fn from_milli(value: u128) -> f64 {
    value as f64 / 1000.0
}

/// Microjoules as joules.
fn from_micro(value: u128) -> f64 {
    value as f64 / 1_000_000.0
}

fn bz_and_miasma() -> GasMixture {
    let bz = gases::bz();
    let miasma = gases::miasma();
    let gas_vec = vec![&bz, &miasma];
    let mole_vec = vec![milli(50.0), milli(100.0)];
    GasMixture::from_vecs(gas_vec, mole_vec, milli(100.0), 70).unwrap()
}

#[test]
fn create_gas_mixture() {
    let bz = gases::bz();
    let miasma = gases::miasma();
    let gas_vec = vec![&bz, &miasma];
    let mole_vec = vec![milli(50.0), milli(100.0)];
    let mix = GasMixture::from_vecs(gas_vec, mole_vec, milli(100.0), 70).unwrap();
    assert_eq!(from_milli(mix.temperature as u128), 100.0);
    assert_eq!(mix.volume, 70);
}

#[test]
fn tests_heat_capacity() {
    let bz = gases::bz();
    let miasma = gases::miasma();
    let gas_vec = vec![&bz, &miasma];
    let mole_vec = vec![milli(50.0), milli(100.0)];
    let mix = GasMixture::from_vecs(gas_vec, mole_vec, milli(100.0), 70).unwrap();

    assert_eq!(from_milli(mix.heat_capacity().unwrap()), 3000.0); // (50 * 20) + (100 * 20) = 3000
}

#[test]
fn tests_thermal_energy() {
    let bz = gases::bz();
    let miasma = gases::miasma();
    let gas_vec = vec![&bz, &miasma];
    let mole_vec = vec![milli(50.0), milli(100.0)];
    let mix = GasMixture::from_vecs(gas_vec, mole_vec, milli(100.0), 70).unwrap();

    assert_eq!(from_micro(mix.thermal_energy().unwrap()), 300_000.0)
}

#[test]
fn gasmixture_from_vecs() {
    let bz = gases::bz();
    let miasma = gases::miasma();
    let gas_vec = vec![&bz, &miasma];
    let mole_vec = vec![milli(50.0), milli(100.0)];
    let mix = GasMixture::from_vecs(gas_vec, mole_vec, milli(100.0), 70).unwrap();
    assert_eq!(from_milli(mix.temperature as u128), 100.0);
    assert_eq!(mix.volume, 70);
}

#[test]
fn gasmixture_gas_exists() {
    let mut mix = bz_and_miasma();
    assert!(mix.gas_exists(&gases::bz()));
    assert!(mix.gas_exists(&gases::miasma()));
    assert!(!mix.gas_exists(&gases::o2()));
    // an entry with nothing in it does not count as the gas being there
    mix.change_moles(&gases::bz(), 0).unwrap();
    assert!(!mix.gas_exists(&gases::bz()));
    assert!(mix.is_asserted(&gases::bz()));
}

#[test]
fn gasmixture_is_empty() {
    let mix = GasMixture::from_empty(milli(100.0), 100); // well, duh, now its empty

    assert_eq!(mix.is_empty(), true);
}

#[test]
fn gasmixture_assert_gas() {
    // Mix contains just O2, at 69.42 mol
    let o2 = gases::o2();
    let mut mix = GasMixture::from_vecs(vec![&o2], vec![milli(69.42)], milli(273.15), 70).unwrap();
    assert_eq!(mix.gas_exists(&gases::n2()), false); // Doesn't exist in mix
    mix.assert_gas(&gases::n2());
    assert_eq!(mix.gas_exists(&gases::n2()), false); // Even though we asserted, its still only at 0 mols so gas_exists fails
}

#[test]
fn gasmixture_get_moles() {
    let mut mix = bz_and_miasma();
    assert_eq!(mix.get_moles(&gases::bz()), Some(50_000));
    assert_eq!(mix.get_moles(&gases::miasma()), Some(100_000));
    assert_eq!(mix.get_moles(&gases::o2()), None);
    mix.assert_gas(&gases::o2());
    assert_eq!(mix.get_moles(&gases::o2()), None);
    assert_eq!(mix.amount_of("o2"), 0);
    assert_eq!(mix.amount_of("bz"), 50_000);
    assert_eq!(mix.amount_of("no such gas"), 0);
}

#[test]
fn gasmixture_change_moles() {
    let mut mix = bz_and_miasma();
    assert_eq!(mix.change_moles(&gases::bz(), 7), Ok(()));
    assert_eq!(mix.get_moles(&gases::bz()), Some(7));
    assert_eq!(mix.get_moles(&gases::miasma()), Some(100_000));
    assert_eq!(
        mix.change_moles(&gases::o2(), 5),
        Err(AtmosError::GasNotFound { gas: gases::o2() })
    );
    assert_eq!(mix.get_moles(&gases::o2()), None);
    assert_eq!(mix.species_count(), 2);
}

#[test]
fn gasmixture_total_moles() {
    let mix = bz_and_miasma();
    assert_eq!(mix.total_moles(), Ok(150_000));
    assert_eq!(from_milli(mix.total_moles().unwrap() as u128), 150.0);
}

#[test]
fn gasmixture_return_pressure() {
    let mix = bz_and_miasma();
    // 150 mol * 8.31 * 100 K / 70 l = 1780.714285... kPa
    assert_eq!(mix.return_pressure(), Ok(1_780_714));
}

#[test]
fn gasmixture_heat_capacity() {
    let bz = gases::bz();
    let miasma = gases::miasma();
    let gas_vec = vec![&bz, &miasma];
    let mole_vec = vec![milli(50.0), milli(100.0)];
    let mix = GasMixture::from_vecs(gas_vec, mole_vec, milli(100.0), 70).unwrap();

    assert_eq!(from_milli(mix.heat_capacity().unwrap()), 3000.0); // (50 * 20) + (100 * 20) = 3000
}

#[test]
fn gasmixture_thermal_energy() {
    let bz = gases::bz();
    let miasma = gases::miasma();
    let gas_vec = vec![&bz, &miasma];
    let mole_vec = vec![milli(50.0), milli(100.0)];
    let mix = GasMixture::from_vecs(gas_vec, mole_vec, milli(100.0), 70).unwrap();

    assert_eq!(from_micro(mix.thermal_energy().unwrap()), 300_000.0)
}

#[test]
fn merge() {
    let bz = gases::bz();
    let miasma = gases::miasma();
    let gas_vec = vec![&bz, &miasma];
    let mole_vec = vec![milli(50.0), milli(100.0)];
    let giver = GasMixture::from_vecs(gas_vec, mole_vec, milli(100.0), 70).unwrap();
    let mut taker = giver.clone();

    taker.merge(giver).unwrap();
    assert_eq!(from_milli(taker.total_moles().unwrap() as u128), 300.0); // added up
    assert_eq!(taker.get_moles(&gases::bz()), Some(milli(100.0)));
    assert_eq!(taker.get_moles(&gases::miasma()), Some(milli(200.0)));
    // oxygen was in neither mixture
    assert_eq!(taker.get_moles(&gases::o2()), None);
    assert_eq!(from_milli(taker.temperature as u128), 100.0);
}

#[test]
fn from_empty_keeps_temperature_and_volume() {
    let mix = GasMixture::from_empty(num::T20C, 1000);
    assert_eq!(mix.temperature, 293_150);
    assert_eq!(mix.temperature(), 293_150);
    assert_eq!(mix.volume, 1000);
    assert_eq!(mix.volume(), 1000);
    assert_eq!(mix.species_count(), 0);
}

#[test]
fn new_takes_the_entries_as_they_are() {
    let entries = vec![
        Portion { gas: gases::plasma(), moles: 3 },
        Portion { gas: gases::o2(), moles: 0 },
    ];
    let mix = GasMixture::new(entries, 1, 2);
    assert_eq!(mix.species_count(), 2);
    assert_eq!(mix.portion(0), Portion { gas: gases::plasma(), moles: 3 });
    assert_eq!(mix.portion(1), Portion { gas: gases::o2(), moles: 0 });
    assert_eq!(mix.get_moles(&gases::plasma()), Some(3));
    assert_eq!(mix.get_moles(&gases::o2()), None);
    assert_eq!(mix.heat_capacity(), Ok(600));
}

#[test]
fn from_vecs_rejects_lists_of_different_length() {
    let bz = gases::bz();
    let miasma = gases::miasma();
    let made = GasMixture::from_vecs(vec![&bz, &miasma], vec![milli(50.0)], milli(100.0), 70);
    assert_eq!(made, Err(AtmosError::VectorLengthMismatch { gas_length: 2, mole_length: 1 }));
    let made = GasMixture::from_vecs(vec![], vec![1, 2, 3], milli(100.0), 70);
    assert_eq!(made, Err(AtmosError::VectorLengthMismatch { gas_length: 0, mole_length: 3 }));
}

#[test]
fn from_vecs_of_nothing_is_empty() {
    let mix = GasMixture::from_vecs(vec![], vec![], 5, 1).unwrap();
    assert!(mix.is_empty());
    assert_eq!(mix, GasMixture::from_empty(5, 1));
}

#[test]
fn from_vecs_gives_back_what_went_in() {
    let catalog = gases::catalog();
    let species: Vec<_> = catalog.iter().collect();
    let moles: Vec<u64> = (0..species.len() as u64).map(|i| i * 1_500).collect();
    let mix = GasMixture::from_vecs(species.clone(), moles.clone(), 1, 1).unwrap();
    assert_eq!(mix.species_count(), species.len());
    for i in 0..species.len() {
        if moles[i] > 0 {
            assert_eq!(mix.get_moles(species[i]), Some(moles[i]));
        } else {
            assert_eq!(mix.get_moles(species[i]), None);
            assert!(mix.is_asserted(species[i]));
        }
        assert_eq!(mix.portion(i), Portion { gas: *species[i], moles: moles[i] });
    }
}

#[test]
fn from_vecs_lets_the_last_of_a_repeated_species_win() {
    let o2 = gases::o2();
    let n2 = gases::n2();
    let mix = GasMixture::from_vecs(vec![&o2, &n2, &o2], vec![5, 6, 7], 1, 1).unwrap();
    assert_eq!(mix.species_count(), 2);
    assert_eq!(mix.get_moles(&o2), Some(7));
    assert_eq!(mix.get_moles(&n2), Some(6));
    assert_eq!(mix.portion(0), Portion { gas: o2, moles: 7 });
    assert_eq!(mix.portion(1), Portion { gas: n2, moles: 6 });
}

#[test]
fn assert_gas_is_idempotent_and_tells_whether_the_entry_was_there() {
    let mut mix = GasMixture::from_empty(1, 1);
    assert_eq!(mix.assert_gas(&gases::n2()), false);
    let once = mix.clone();
    assert_eq!(mix.assert_gas(&gases::n2()), true);
    assert_eq!(mix, once);
    assert_eq!(mix.species_count(), 1);
    assert_eq!(mix.is_empty(), false);
    assert_eq!(mix.portion(0), Portion { gas: gases::n2(), moles: 0 });

    let mut full = bz_and_miasma();
    assert_eq!(full.assert_gas(&gases::bz()), true);
    assert_eq!(full, bz_and_miasma());
}

#[test]
fn change_moles_goes_by_the_entry_and_get_moles_by_the_amount() {
    let mut mix = GasMixture::from_empty(1, 1);
    mix.assert_gas(&gases::co2());
    assert_eq!(mix.get_moles(&gases::co2()), None);
    assert_eq!(mix.gas_exists(&gases::co2()), false);
    assert_eq!(mix.change_moles(&gases::co2(), 12), Ok(()));
    assert_eq!(mix.get_moles(&gases::co2()), Some(12));
    assert_eq!(mix.gas_exists(&gases::co2()), true);
}

#[test]
fn aggregates_of_an_empty_mixture_fail() {
    let mix = GasMixture::from_empty(milli(100.0), 100);
    assert_eq!(mix.total_moles(), Err(AtmosError::GasMixtureEmpty));
    assert_eq!(mix.heat_capacity(), Err(AtmosError::GasMixtureEmpty));
    assert_eq!(mix.thermal_energy(), Err(AtmosError::GasMixtureEmpty));
    assert_eq!(mix.return_pressure(), Err(AtmosError::GasMixtureEmpty));
}

#[test]
fn aggregates_of_asserted_but_empty_species_are_zero() {
    let mut mix = GasMixture::from_empty(milli(100.0), 100);
    mix.assert_gas(&gases::o2());
    assert_eq!(mix.total_moles(), Ok(0));
    assert_eq!(mix.heat_capacity(), Ok(0));
    assert_eq!(mix.thermal_energy(), Ok(0));
    assert_eq!(mix.return_pressure(), Ok(0));
}

#[test]
fn heat_capacity_weighs_each_species_by_its_specific_heat() {
    let plasma = gases::plasma();
    let co2 = gases::co2();
    let stim = gases::stim();
    let mix = GasMixture::from_vecs(vec![&plasma, &co2, &stim], vec![3, 7, 11], 13, 1).unwrap();
    assert_eq!(mix.heat_capacity(), Ok(200 * 3 + 30 * 7 + 5 * 11));
    assert_eq!(mix.thermal_energy(), Ok((200 * 3 + 30 * 7 + 5 * 11) * 13));
    assert_eq!(mix.total_moles(), Ok(21));
}

#[test]
fn aggregates_do_not_depend_on_the_order_of_the_species() {
    let plasma = gases::plasma();
    let co2 = gases::co2();
    let stim = gases::stim();
    let one = GasMixture::from_vecs(vec![&plasma, &co2, &stim], vec![3, 7, 11], 13, 5).unwrap();
    let other = GasMixture::from_vecs(vec![&stim, &plasma, &co2], vec![11, 3, 7], 13, 5).unwrap();
    assert_eq!(one.total_moles(), other.total_moles());
    assert_eq!(one.heat_capacity(), other.heat_capacity());
    assert_eq!(one.thermal_energy(), other.thermal_energy());
    assert_eq!(one.return_pressure(), other.return_pressure());
}

#[test]
fn pressure_is_rounded_down() {
    let o2 = gases::o2();
    // 1 mmol * 8310 * 1 mK / (1 l * 1_000_000) is below one pascal
    let mix = GasMixture::from_vecs(vec![&o2], vec![1], 1, 1).unwrap();
    assert_eq!(mix.return_pressure(), Ok(0));
    // one mole at 0 degrees Celsius in 22.4 litres is about one atmosphere
    let mix = GasMixture::from_vecs(vec![&o2], vec![milli(1.0)], num::T0C, 22).unwrap();
    assert_eq!(mix.return_pressure(), Ok(1000 * 8310 * 273_150 / 22_000_000));
    assert_eq!(mix.return_pressure(), Ok(103_176));
}

#[test]
fn the_largest_mixture_does_not_overflow() {
    let gas = libatmos::atmospherics::gasmixtures::gastype::GasType {
        id: "heavy",
        name: "Heavy",
        specific_heat: num::MAX_SPECIFIC_HEAT,
        fusion_power: 0,
    };
    let mix =
        GasMixture::from_vecs(vec![&gas], vec![num::MAX_MOLES], num::MAX_TEMPERATURE, 1).unwrap();
    let capacity = num::MAX_SPECIFIC_HEAT as u128 * num::MAX_MOLES as u128;
    assert_eq!(mix.heat_capacity(), Ok(capacity));
    assert_eq!(mix.thermal_energy(), Ok(capacity * num::MAX_TEMPERATURE as u128));
    assert_eq!(
        mix.return_pressure(),
        Ok(num::MAX_MOLES as u128 * 8310 * num::MAX_TEMPERATURE as u128 / 1_000_000)
    );
}

#[test]
fn clone_is_equal_and_independent() {
    let mix = bz_and_miasma();
    let mut copy = mix.clone();
    assert_eq!(copy, mix);
    copy.change_moles(&gases::bz(), 1).unwrap();
    assert_eq!(mix.get_moles(&gases::bz()), Some(50_000));
    assert_ne!(copy, mix);
}

#[test]
fn set_temperature_changes_only_the_temperature() {
    let mut mix = bz_and_miasma();
    mix.set_temperature(42);
    assert_eq!(mix.temperature, 42);
    assert_eq!(mix.volume, 70);
    assert_eq!(mix.total_moles(), Ok(150_000));
}

#[test]
fn is_valid_tells_a_mixture_that_the_library_can_work_on() {
    assert!(bz_and_miasma().is_valid());
    assert!(GasMixture::from_empty(0, 1).is_valid());
    assert!(GasMixture::from_empty(num::MAX_TEMPERATURE, usize::MAX).is_valid());
    assert!(!GasMixture::new(vec![], num::MAX_TEMPERATURE + 1, 1).is_valid());
    assert!(!GasMixture::new(vec![], 1, 0).is_valid());

    let entry = |gas, moles| Portion { gas, moles };
    assert!(GasMixture::new(vec![entry(gases::o2(), 1), entry(gases::n2(), 1)], 1, 1).is_valid());
    // a species twice
    assert!(!GasMixture::new(vec![entry(gases::o2(), 1), entry(gases::o2(), 2)], 1, 1).is_valid());
    assert!(!GasMixture::new(
        vec![entry(gases::o2(), 1), entry(gases::n2(), 1), entry(gases::o2(), 1)],
        1,
        1
    )
    .is_valid());
    // too much of a species
    assert!(GasMixture::new(vec![entry(gases::o2(), num::MAX_MOLES)], 1, 1).is_valid());
    assert!(!GasMixture::new(vec![entry(gases::o2(), num::MAX_MOLES + 1)], 1, 1).is_valid());
    // a specific heat beyond the limit
    let mut heavy = gases::o2();
    heavy.specific_heat = num::MAX_SPECIFIC_HEAT;
    assert!(GasMixture::new(vec![entry(heavy, 1)], 1, 1).is_valid());
    heavy.specific_heat = num::MAX_SPECIFIC_HEAT + 1;
    assert!(!GasMixture::new(vec![entry(heavy, 1)], 1, 1).is_valid());
    // a mixture whose temperature was set from outside
    let mut mix = bz_and_miasma();
    mix.temperature = num::MAX_TEMPERATURE + 1;
    assert!(!mix.is_valid());
}

#[test]
fn from_empty_takes_any_temperature_and_volume() {
    let mix = GasMixture::from_empty(u64::MAX, 0);
    assert_eq!(mix.temperature, u64::MAX);
    assert_eq!(mix.volume, 0);
    assert!(mix.is_empty());
    assert!(!mix.is_valid());
}

#[test]
fn from_vecs_takes_lists_that_do_not_fit_and_is_not_valid_then() {
    let o2 = gases::o2();
    let mix = GasMixture::from_vecs(vec![&o2], vec![num::MAX_MOLES + 1], 1, 1).unwrap();
    assert_eq!(mix.portion(0).moles, num::MAX_MOLES + 1);
    assert!(!mix.is_valid());
    let mix = GasMixture::from_vecs(vec![&o2], vec![num::MAX_MOLES], 1, 1).unwrap();
    assert!(mix.is_valid());
}
