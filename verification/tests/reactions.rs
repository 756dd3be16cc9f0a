use libatmos::atmospherics::gases::reactions::{
    apply_effect, convert, heat, meets, Effect, GasReaction, ReactionEngine, ReactionReport,
    Requirement, TEMPERATURE_KEY, THERMAL_ENERGY_KEY,
};
use libatmos::atmospherics::gases::{GasMixture, GasType};
use libatmos::constants::gases;
use libatmos::errors::AtmosError;

fn bz_and_miasma(temperature: u64) -> GasMixture {
    let bz = gases::bz();
    let miasma = gases::miasma();
    GasMixture::from_vecs(vec![&bz, &miasma], vec![50_000, 100_000], temperature, 70).unwrap()
}

fn hot(minimum: u128) -> Vec<Requirement> {
    vec![Requirement { key: TEMPERATURE_KEY, minimum }]
}

fn burn(id: &'static str, priority: usize) -> GasReaction {
    GasReaction::new(
        "Burn",
        id,
        Effect::MoleConversion { from: gases::bz(), to: gases::co2(), consumed: 1_000, produced: 1_000 },
        vec![Requirement { key: "bz", minimum: 1_000 }],
        priority,
    )
}

fn registry() -> ReactionEngine {
    let mut engine = ReactionEngine::new();
    engine.register(GasReaction::new(
        "Glow",
        "glow",
        Effect::Composite {
            parts: vec![
                Effect::EnergyDelta { energy: 6_000_000_000 },
                Effect::Signal { name: "radiation" },
            ],
        },
        vec![Requirement { key: "co2", minimum: 1_000 }],
        5,
    ));
    engine.register(burn("burn", 1));
    engine.register(GasReaction::new(
        "Freeze",
        "freeze",
        Effect::EnergyDelta { energy: -3_000_000_000 },
        hot(1_000_000),
        5,
    ));
    engine
}

#[test]
fn a_floor_on_the_temperature_is_met_by_the_temperature_that_equals_it() {
    let mut engine = ReactionEngine::new();
    engine.register(GasReaction::new(
        "Ignite",
        "ignite",
        Effect::Signal { name: "fire" },
        hot(1_000_000),
        1,
    ));
    // 999.999 K
    let mut cold = bz_and_miasma(999_999);
    assert_eq!(engine.evaluate(&cold), vec![false]);
    let report = engine.apply(&mut cold).unwrap();
    assert_eq!(report, ReactionReport { fired: vec![], signals: vec![] });
    assert_eq!(cold, bz_and_miasma(999_999));
    // 1000.0 K
    let mut warm = bz_and_miasma(1_000_000);
    assert_eq!(engine.evaluate(&warm), vec![true]);
    let report = engine.apply(&mut warm).unwrap();
    assert_eq!(report, ReactionReport { fired: vec!["ignite"], signals: vec!["fire"] });
    assert_eq!(warm, bz_and_miasma(1_000_000));
}

#[test]
fn requirements_are_floors_on_moles_temperature_and_thermal_energy() {
    let mix = bz_and_miasma(100_000);
    assert!(meets(&mix, &Requirement { key: "bz", minimum: 50_000 }));
    assert!(!meets(&mix, &Requirement { key: "bz", minimum: 50_001 }));
    assert!(meets(&mix, &Requirement { key: "o2", minimum: 0 }));
    assert!(!meets(&mix, &Requirement { key: "o2", minimum: 1 }));
    assert!(meets(&mix, &Requirement { key: TEMPERATURE_KEY, minimum: 100_000 }));
    assert!(!meets(&mix, &Requirement { key: TEMPERATURE_KEY, minimum: 100_001 }));
    // 3000 J/K at 100 K are 300000 J
    assert!(meets(&mix, &Requirement { key: THERMAL_ENERGY_KEY, minimum: 300_000_000_000 }));
    assert!(!meets(&mix, &Requirement { key: THERMAL_ENERGY_KEY, minimum: 300_000_000_001 }));
    assert_eq!(TEMPERATURE_KEY, "TEMP");
    assert_eq!(THERMAL_ENERGY_KEY, "ENER");
}

#[test]
fn a_floor_on_the_thermal_energy_is_not_met_by_a_mixture_without_species() {
    let mut mix = GasMixture::from_empty(100_000, 70);
    assert!(!meets(&mix, &Requirement { key: THERMAL_ENERGY_KEY, minimum: 0 }));
    let mut engine = ReactionEngine::new();
    engine.register(GasReaction::new(
        "Glow",
        "glow",
        Effect::EnergyDelta { energy: 1 },
        vec![Requirement { key: THERMAL_ENERGY_KEY, minimum: 0 }],
        1,
    ));
    assert_eq!(engine.evaluate(&mix), vec![false]);
    assert_eq!(engine.apply(&mut mix), Ok(ReactionReport { fired: vec![], signals: vec![] }));
    mix.assert_gas(&gases::o2());
    assert!(meets(&mix, &Requirement { key: THERMAL_ENERGY_KEY, minimum: 0 }));
}

#[test]
fn a_reaction_is_eligible_when_every_requirement_is_met() {
    let mix = bz_and_miasma(100_000);
    let mut reaction = burn("burn", 1);
    assert!(reaction.is_eligible(&mix));
    reaction.min_reqs.push(Requirement { key: TEMPERATURE_KEY, minimum: 100_001 });
    assert!(!reaction.is_eligible(&mix));
    reaction.min_reqs.clear();
    assert!(reaction.is_eligible(&mix));
    assert!(reaction.is_eligible(&GasMixture::from_empty(0, 1)));
}

#[test]
fn new_keeps_the_parts_of_a_reaction() {
    let reaction = GasReaction::new(
        "Plasma fire",
        "plasmafire",
        Effect::EnergyDelta { energy: 5 },
        hot(373_150),
        3,
    );
    assert_eq!(reaction.name, "Plasma fire");
    assert_eq!(reaction.id, "plasmafire");
    assert_eq!(reaction.react, Effect::EnergyDelta { energy: 5 });
    assert_eq!(reaction.min_reqs, hot(373_150));
    assert_eq!(reaction.priority, 3);
}

#[test]
fn the_registry_is_ordered_by_priority_and_then_by_registration() {
    let engine = registry();
    assert_eq!(engine.rule_count(), 3);
    assert_eq!(engine.rule(0).id, "burn");
    assert_eq!(engine.rule(1).id, "glow");
    assert_eq!(engine.rule(2).id, "freeze");

    let mut engine = ReactionEngine::new();
    assert_eq!(engine.rule_count(), 0);
    for (id, priority) in [("a", 2), ("b", 1), ("c", 2), ("d", 0), ("e", 1), ("f", 3), ("g", 0)] {
        engine.register(burn(id, priority));
    }
    let order: Vec<&str> = (0..engine.rule_count()).map(|at| engine.rule(at).id).collect();
    assert_eq!(order, vec!["d", "g", "b", "e", "a", "c", "f"]);
}

#[test]
fn a_pass_lets_later_reactions_see_what_earlier_ones_did() {
    let engine = registry();
    let mut mix = bz_and_miasma(100_000);
    // before the pass only the burn is eligible: there is no carbon dioxide yet
    assert_eq!(engine.evaluate(&mix), vec![true, false, false]);
    let report = engine.apply(&mut mix).unwrap();
    assert_eq!(report.fired, vec!["burn", "glow"]);
    assert_eq!(report.signals, vec!["radiation"]);
    assert_eq!(mix.get_moles(&gases::bz()), Some(49_000));
    assert_eq!(mix.get_moles(&gases::co2()), Some(1_000));
    assert_eq!(mix.get_moles(&gases::miasma()), Some(100_000));
    assert_eq!(mix.total_moles(), Ok(150_000));
    // 49 mol and 100 mol at 20 J/(mol K) and 1 mol at 30: 3010 J/K; 6000 J
    // heat the mixture by 1.993 K to 101.993 K, which is not yet 1000 K
    assert_eq!(mix.heat_capacity(), Ok(3_010_000));
    assert_eq!(mix.temperature, 100_000 + 6_000_000_000 / 3_010_000);
    assert_eq!(mix.temperature, 101_993);
}

#[test]
fn a_pass_tries_every_reaction_once() {
    let mut engine = ReactionEngine::new();
    // the second reaction makes the first eligible, too late for this pass
    engine.register(GasReaction::new(
        "Second",
        "second",
        Effect::Signal { name: "late" },
        vec![Requirement { key: "co2", minimum: 1 }],
        1,
    ));
    engine.register(burn("first", 2));
    let mut mix = bz_and_miasma(100_000);
    let report = engine.apply(&mut mix).unwrap();
    assert_eq!(report, ReactionReport { fired: vec!["first"], signals: vec![] });
    assert_eq!(mix.get_moles(&gases::bz()), Some(49_000));
    // on the next pass both fire, and the burn fires a second time
    let report = engine.apply(&mut mix).unwrap();
    assert_eq!(report, ReactionReport { fired: vec!["second", "first"], signals: vec!["late"] });
    assert_eq!(mix.get_moles(&gases::bz()), Some(48_000));
    assert_eq!(mix.get_moles(&gases::co2()), Some(2_000));
}

#[test]
fn a_pass_on_identical_mixtures_gives_identical_results() {
    let mut first = bz_and_miasma(1_000_000);
    let mut second = bz_and_miasma(1_000_000);
    let first_report = registry().apply(&mut first).unwrap();
    let second_report = registry().apply(&mut second).unwrap();
    assert_eq!(first_report, second_report);
    assert_eq!(first, second);
    assert_eq!(first_report.fired, vec!["burn", "glow", "freeze"]);
    // one engine, used twice, does the same again
    let engine = registry();
    let mut third = bz_and_miasma(1_000_000);
    let mut fourth = third.clone();
    assert_eq!(engine.evaluate(&third), engine.evaluate(&fourth));
    assert_eq!(engine.apply(&mut third), engine.apply(&mut fourth));
    assert_eq!(third, fourth);
    assert_eq!(third, first);
}

#[test]
fn a_pass_stops_at_the_effect_that_cannot_be_applied_and_keeps_what_was_done() {
    let mut engine = ReactionEngine::new();
    engine.register(burn("burn", 1));
    engine.register(GasReaction::new(
        "Drain",
        "drain",
        Effect::Composite {
            parts: vec![
                Effect::Signal { name: "draining" },
                Effect::MoleConversion {
                    from: gases::miasma(),
                    to: gases::n2(),
                    consumed: 100_000,
                    produced: 0,
                },
                Effect::MoleConversion {
                    from: gases::o2(),
                    to: gases::n2(),
                    consumed: 1,
                    produced: 1,
                },
                Effect::Signal { name: "drained" },
            ],
        },
        vec![],
        2,
    ));
    engine.register(burn("never", 3));
    let mut mix = bz_and_miasma(100_000);
    assert_eq!(
        engine.apply(&mut mix),
        Err(AtmosError::ReactionEffectInvariantViolation { reaction: "drain" })
    );
    // the burn and the first conversion of the drain stay applied
    assert_eq!(mix.get_moles(&gases::bz()), Some(49_000));
    assert_eq!(mix.get_moles(&gases::co2()), Some(1_000));
    assert_eq!(mix.get_moles(&gases::miasma()), None);
    assert!(mix.is_asserted(&gases::n2()));
    assert!(!mix.is_asserted(&gases::o2()));
    assert_eq!(mix.total_moles(), Ok(50_000));
}

#[test]
fn an_energy_against_no_heat_capacity_is_a_violation() {
    let mut engine = ReactionEngine::new();
    engine.register(GasReaction::new(
        "Glow",
        "glow",
        Effect::EnergyDelta { energy: 1 },
        vec![],
        1,
    ));
    let mut mix = GasMixture::from_empty(100_000, 70);
    assert_eq!(
        engine.apply(&mut mix),
        Err(AtmosError::ReactionEffectInvariantViolation { reaction: "glow" })
    );
    assert_eq!(mix, GasMixture::from_empty(100_000, 70));
    mix.assert_gas(&gases::o2());
    assert_eq!(
        engine.apply(&mut mix),
        Err(AtmosError::ReactionEffectInvariantViolation { reaction: "glow" })
    );
    assert!(!heat(&mut mix, 0));
    mix.change_moles(&gases::o2(), 1).unwrap();
    assert_eq!(engine.apply(&mut mix), Ok(ReactionReport { fired: vec!["glow"], signals: vec![] }));
}

#[test]
fn heat_changes_the_temperature_by_the_energy_over_the_heat_capacity() {
    // 3000 J/K
    let mut mix = bz_and_miasma(100_000);
    assert!(heat(&mut mix, 6_000_000));
    assert_eq!(mix.temperature, 100_002);
    assert!(heat(&mut mix, -9_000_000));
    assert_eq!(mix.temperature, 99_999);
    // less than one thousandth of a kelvin is no change, in either direction
    assert!(heat(&mut mix, 2_999_999));
    assert_eq!(mix.temperature, 99_999);
    assert!(heat(&mut mix, -2_999_999));
    assert_eq!(mix.temperature, 99_999);
    assert!(heat(&mut mix, 0));
    assert_eq!(mix.temperature, 99_999);
    assert_eq!(mix.total_moles(), Ok(150_000));
}

#[test]
fn heat_does_not_leave_the_range_of_temperatures() {
    let o2 = gases::o2();
    let mut mix = GasMixture::from_vecs(vec![&o2], vec![1], 5, 70).unwrap();
    // 20 mJ/K: 100 microjoules are 5 mK, 120 are 6
    assert!(!heat(&mut mix, -120));
    assert_eq!(mix.temperature, 5);
    assert!(heat(&mut mix, -100));
    assert_eq!(mix.temperature, 0);
    assert!(!heat(&mut mix, i64::MIN));
    assert_eq!(mix.temperature, 0);
    let top = libatmos::constants::num::MAX_TEMPERATURE;
    mix.set_temperature(top - 1);
    assert!(!heat(&mut mix, 40));
    assert_eq!(mix.temperature, top - 1);
    assert!(heat(&mut mix, 39));
    assert_eq!(mix.temperature, top);
    assert!(!heat(&mut mix, i64::MAX));
    assert_eq!(mix.temperature, top);
}

#[test]
fn convert_moves_moles_from_one_species_to_another() {
    let mut mix = bz_and_miasma(100_000);
    assert!(convert(&mut mix, &gases::bz(), &gases::miasma(), 20_000, 20_000));
    assert_eq!(mix.get_moles(&gases::bz()), Some(30_000));
    assert_eq!(mix.get_moles(&gases::miasma()), Some(120_000));
    assert_eq!(mix.total_moles(), Ok(150_000));
    // mass may be lost or gained where the reaction says so
    assert!(convert(&mut mix, &gases::bz(), &gases::trit(), 30_000, 10));
    assert_eq!(mix.get_moles(&gases::bz()), None);
    assert!(mix.is_asserted(&gases::bz()));
    assert_eq!(mix.get_moles(&gases::trit()), Some(10));
    assert_eq!(mix.species_count(), 3);
    assert_eq!(mix.temperature, 100_000);
}

#[test]
fn convert_needs_the_moles_that_it_consumes() {
    let mut mix = bz_and_miasma(100_000);
    assert!(!convert(&mut mix, &gases::bz(), &gases::miasma(), 50_001, 1));
    assert!(!convert(&mut mix, &gases::o2(), &gases::miasma(), 1, 1));
    assert_eq!(mix, bz_and_miasma(100_000));
    assert!(convert(&mut mix, &gases::bz(), &gases::miasma(), 50_000, 1));
    assert_eq!(mix.amount_of("miasma"), 100_001);
}

#[test]
fn convert_of_nothing_from_a_species_without_entry_only_adds() {
    let mut mix = bz_and_miasma(100_000);
    assert!(convert(&mut mix, &gases::o2(), &gases::n2(), 0, 5));
    assert!(!mix.is_asserted(&gases::o2()));
    assert_eq!(mix.get_moles(&gases::n2()), Some(5));
}

#[test]
fn convert_within_one_species_changes_its_amount() {
    let mut mix = bz_and_miasma(100_000);
    assert!(convert(&mut mix, &gases::bz(), &gases::bz(), 50_000, 7));
    assert_eq!(mix.get_moles(&gases::bz()), Some(7));
    assert!(convert(&mut mix, &gases::bz(), &gases::bz(), 2, 3));
    assert_eq!(mix.get_moles(&gases::bz()), Some(8));
    assert_eq!(mix.species_count(), 2);
}

#[test]
fn convert_does_not_leave_the_limits_of_a_mixture() {
    let most = libatmos::constants::num::MAX_MOLES;
    let mut mix = bz_and_miasma(100_000);
    assert!(!convert(&mut mix, &gases::bz(), &gases::miasma(), 0, most));
    assert!(!convert(&mut mix, &gases::bz(), &gases::miasma(), 0, u64::MAX));
    assert!(!convert(&mut mix, &gases::bz(), &gases::o2(), 0, most + 1));
    let heavy = GasType {
        id: "heavy",
        name: "Heavy",
        specific_heat: libatmos::constants::num::MAX_SPECIFIC_HEAT + 1,
        fusion_power: 0,
    };
    assert!(!convert(&mut mix, &gases::bz(), &heavy, 1, 1));
    assert_eq!(mix, bz_and_miasma(100_000));
    assert!(convert(&mut mix, &gases::bz(), &gases::o2(), 0, most));
    assert_eq!(mix.get_moles(&gases::o2()), Some(most));
}

#[test]
fn apply_effect_reports_signals_in_order_and_stops_at_a_failure() {
    let effect = Effect::Composite {
        parts: vec![
            Effect::Signal { name: "one" },
            Effect::Composite { parts: vec![Effect::Signal { name: "two" }] },
            Effect::MoleConversion {
                from: gases::bz(),
                to: gases::co2(),
                consumed: 50_000,
                produced: 50_000,
            },
            Effect::Composite { parts: vec![] },
            Effect::Signal { name: "three" },
        ],
    };
    let mut mix = bz_and_miasma(100_000);
    let mut signals = vec!["zero"];
    assert!(apply_effect(&effect, &mut mix, &mut signals));
    assert_eq!(signals, vec!["zero", "one", "two", "three"]);
    assert_eq!(mix.get_moles(&gases::co2()), Some(50_000));
    // a second time there is no BZ left to consume
    assert!(!apply_effect(&effect, &mut mix, &mut signals));
    assert_eq!(signals, vec!["zero", "one", "two", "three", "one", "two"]);
    assert_eq!(mix.get_moles(&gases::co2()), Some(50_000));
}

#[test]
fn an_engine_without_reactions_leaves_the_mixture_alone() {
    let engine = ReactionEngine::new();
    let mut mix = bz_and_miasma(100_000);
    assert_eq!(engine.evaluate(&mix), Vec::<bool>::new());
    assert_eq!(engine.apply(&mut mix), Ok(ReactionReport { fired: vec![], signals: vec![] }));
    assert_eq!(mix, bz_and_miasma(100_000));
}
