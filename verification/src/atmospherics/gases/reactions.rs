use crate::atmospherics::gasmixtures::composition::{
    amount, holds, lemma_amount_bounded, lemma_slot_is, lemma_with_added_total,
    lemma_with_entry, lemma_with_entry_within_limits, lemma_with_moles_total, slot, with_added,
    with_entry, with_moles, Portion,
};
use crate::atmospherics::gasmixtures::gasmixture::{GasMixture, MixtureState};
use crate::atmospherics::gasmixtures::gastype::{same_text, GasType};
use crate::constants::num::{MAX_MOLES, MAX_SPECIES, MAX_SPECIFIC_HEAT, MAX_TEMPERATURE};
use crate::errors::AtmosError;
use vstd::prelude::*;

verus! {

/// The requirement key that stands for the temperature of the mixture, in
/// millikelvin.
pub const TEMPERATURE_KEY: &'static str = "TEMP";

/// The requirement key that stands for the thermal energy of the mixture, in
/// microjoules.
pub const THERMAL_ENERGY_KEY: &'static str = "ENER";

/// A floor that a mixture must reach before a reaction fires. The key is the
/// id of a species, whose millimoles are then meant, or one of the two
/// reserved keys.
#[derive(Clone, Copy, Debug, PartialEq, Eq)]
pub struct Requirement {
    pub key: &'static str,
    pub minimum: u128,
}

/// What a reaction does to a mixture.
#[derive(Debug, PartialEq, Eq)]
pub enum Effect {
    /// Consumes millimoles of one species and produces millimoles of another.
    /// The total is conserved where as much is produced as is consumed.
    MoleConversion { from: GasType, to: GasType, consumed: u64, produced: u64 },
    /// Releases `energy` microjoules into the mixture, or absorbs them from
    /// it where the energy is negative; the temperature changes by the energy
    /// divided by the heat capacity.
    EnergyDelta { energy: i64 },
    /// Reports a signal to the caller and leaves the mixture as it is.
    Signal { name: &'static str },
    /// Several effects, one after the other.
    Composite { parts: Vec<Effect> },
}

/// What became of a mixture under an effect: the state reached, the signals
/// reported on the way, and whether the effect was applied to its end. Where
/// it was not, the state is the one in which a part could not be applied.
pub struct EffectOutcome {
    pub state: MixtureState,
    pub signals: Seq<Seq<char>>,
    pub done: bool,
}

/// The composition with the millimoles of a species lowered by `consumed`,
/// and unchanged where the species has no entry.
pub open spec fn reduced(comp: Seq<Portion>, key: Seq<char>, consumed: u64) -> Seq<Portion> {
    if holds(comp, key) {
        with_moles(comp, slot(comp, key), (amount(comp, key) - consumed) as u64)
    } else {
        comp
    }
}

/// The state after a conversion, where the mixture can take it: it has the
/// millimoles to consume, room for the species produced, and the amount of
/// that species stays within the limit.
pub open spec fn converted(
    state: MixtureState,
    from: GasType,
    to: GasType,
    consumed: u64,
    produced: u64,
) -> Option<MixtureState> {
    let comp = state.composition;
    let rest = reduced(comp, from.key(), consumed);
    if amount(comp, from.key()) >= consumed && to.specific_heat <= MAX_SPECIFIC_HEAT && (holds(
        comp,
        to.key(),
    ) || comp.len() < MAX_SPECIES) && amount(rest, to.key()) + produced <= MAX_MOLES {
        Some(state.with_composition(with_added(rest, to, produced)))
    } else {
        None
    }
}

/// By how many millikelvin an energy changes the temperature of a mixture
/// with the given heat capacity: the energy divided by the heat capacity,
/// rounded towards zero.
pub open spec fn temperature_change(energy: i64, capacity: nat) -> int {
    if energy >= 0 {
        (energy as int) / (capacity as int)
    } else {
        -((-(energy as int)) / (capacity as int))
    }
}

/// The state after an energy was released into the mixture, where the mixture
/// can take it: its heat capacity is not zero and the new temperature is one
/// that a mixture can have.
pub open spec fn heated(state: MixtureState, energy: i64) -> Option<MixtureState> {
    let capacity = state.heat_capacity();
    let temperature = state.temperature + temperature_change(energy, capacity);
    if capacity > 0 && 0 <= temperature <= MAX_TEMPERATURE {
        Some(
            MixtureState {
                composition: state.composition,
                temperature: temperature as u64,
                volume: state.volume,
            },
        )
    } else {
        None
    }
}

/// The outcome of an effect that changes the state or cannot be applied.
pub open spec fn step_outcome(state: MixtureState, next: Option<MixtureState>) -> EffectOutcome {
    match next {
        Some(reached) => EffectOutcome { state: reached, signals: Seq::empty(), done: true },
        None => EffectOutcome { state, signals: Seq::empty(), done: false },
    }
}

/// What an effect does to a mixture in the given state.
pub open spec fn effect_outcome(effect: Effect, state: MixtureState) -> EffectOutcome
    decreases effect,
{
    match effect {
        Effect::MoleConversion { from, to, consumed, produced } => step_outcome(
            state,
            converted(state, from, to, consumed, produced),
        ),
        Effect::EnergyDelta { energy } => step_outcome(state, heated(state, energy)),
        Effect::Signal { name } => EffectOutcome { state, signals: seq![name@], done: true },
        Effect::Composite { parts } => parts_outcome(parts@, parts@.len() as int, state),
    }
}

/// What the first `n` of several effects do to a mixture, one after the
/// other: each works on the state that the one before it reached, and after
/// one that cannot be applied none of the others is tried.
pub open spec fn parts_outcome(parts: Seq<Effect>, n: int, state: MixtureState) -> EffectOutcome
    decreases parts, n,
{
    if n <= 0 || n > parts.len() {
        EffectOutcome { state, signals: Seq::empty(), done: true }
    } else {
        let before = parts_outcome(parts, n - 1, state);
        if before.done {
            let step = effect_outcome(parts[n - 1], before.state);
            EffectOutcome {
                state: step.state,
                signals: before.signals + step.signals,
                done: step.done,
            }
        } else {
            before
        }
    }
}

/// The texts of a list of names.
pub open spec fn texts(names: Seq<&'static str>) -> Seq<Seq<char>> {
    names.map_values(|name: &'static str| name@)
}

/// Converts millimoles of one species into another, where the mixture can
/// take it; otherwise leaves the mixture as it is and returns `false`.
pub fn convert(
    mixture: &mut GasMixture,
    from: &GasType,
    to: &GasType,
    consumed: u64,
    produced: u64,
) -> (done: bool)
    requires
        old(mixture).wf(),
    ensures
        done == (converted(old(mixture)@, *from, *to, consumed, produced) is Some),
        final(mixture)@ == step_outcome(
            old(mixture)@,
            converted(old(mixture)@, *from, *to, consumed, produced),
        ).state,
        done ==> final(mixture)@.total_moles() == old(mixture)@.total_moles() - consumed
            + produced,
        final(mixture).wf(),
{
    let ghost comp = mixture@.composition;
    let ghost rest = reduced(comp, from.key(), consumed);
    let have: u64 = mixture.amount_of(from.id);
    if have < consumed {
        return false;
    }
    if to.specific_heat > MAX_SPECIFIC_HEAT {
        return false;
    }
    let from_held: bool = mixture.is_asserted(from);
    let to_held: bool = mixture.is_asserted(to);
    if !to_held && mixture.species_count() >= MAX_SPECIES {
        return false;
    }
    let same: bool = from.same_species(to);
    let target: u64 = if same && from_held {
        have - consumed
    } else {
        mixture.amount_of(to.id)
    };
    proof {
        if from_held {
            let at = slot(comp, from.key());
            assert(comp[at].gas.key() == from.key());
            lemma_with_entry(comp, comp[at].gas, (have - consumed) as u64);
            lemma_with_moles_total(comp, at, (have - consumed) as u64);
        }
        assert(amount(rest, to.key()) == target);
        if target + produced <= MAX_MOLES {
            lemma_with_added_total(rest, *to, produced);
        }
    }
    if produced > MAX_MOLES || target > MAX_MOLES - produced {
        return false;
    }
    if from_held {
        let _ = mixture.change_moles(from, have - consumed);
    }
    let _ = mixture.assert_gas(to);
    let _ = mixture.change_moles(to, target + produced);
    proof {
        let grown = mixture@.composition;
        let goal = with_added(rest, *to, produced);
        if holds(rest, to.key()) {
            assert(grown == goal);
        } else {
            let asserted = rest.push(Portion { gas: *to, moles: 0 });
            lemma_slot_is(asserted, to.key(), rest.len() as int);
            assert(grown =~= goal);
        }
    }
    true
}

/// Releases an energy into the mixture, or absorbs it, where the mixture can
/// take it; otherwise leaves the mixture as it is and returns `false`.
pub fn heat(mixture: &mut GasMixture, energy: i64) -> (done: bool)
    requires
        old(mixture).wf(),
    ensures
        done == (heated(old(mixture)@, energy) is Some),
        final(mixture)@ == step_outcome(old(mixture)@, heated(old(mixture)@, energy)).state,
        final(mixture).wf(),
{
    let capacity: u128 = match mixture.heat_capacity() {
        Ok(value) => value,
        Err(_) => {
            return false;
        },
    };
    if capacity == 0 {
        return false;
    }
    let temperature: u64 = mixture.temperature();
    if energy >= 0 {
        let rise: u128 = (energy as u128) / capacity;
        if rise > (MAX_TEMPERATURE - temperature) as u128 {
            return false;
        }
        mixture.set_temperature(temperature + (rise as u64));
    } else {
        let fall: u128 = ((-(energy as i128)) as u128) / capacity;
        if fall > temperature as u128 {
            return false;
        }
        mixture.set_temperature(temperature - (fall as u64));
    }
    true
}

/// Once one of several effects could not be applied, the outcome stays what
/// it was then.
pub proof fn lemma_parts_stop(parts: Seq<Effect>, stopped: int, n: int, state: MixtureState)
    requires
        0 <= stopped <= n <= parts.len(),
        !parts_outcome(parts, stopped, state).done,
    ensures
        parts_outcome(parts, n, state) == parts_outcome(parts, stopped, state),
    decreases n - stopped,
{
    if stopped < n {
        lemma_parts_stop(parts, stopped, n - 1, state);
    }
}

/// Applies an effect to the mixture and adds the signals that it reports to
/// `signals`. Returns whether the effect was applied to its end; where it was
/// not, the mixture is in the state in which a part could not be applied.
#[verifier::loop_isolation(false)]
pub fn apply_effect(
    effect: &Effect,
    mixture: &mut GasMixture,
    signals: &mut Vec<&'static str>,
) -> (done: bool)
    requires
        old(mixture).wf(),
    ensures
        final(mixture)@ == effect_outcome(*effect, old(mixture)@).state,
        done == effect_outcome(*effect, old(mixture)@).done,
        texts(final(signals)@) == texts(old(signals)@) + effect_outcome(
            *effect,
            old(mixture)@,
        ).signals,
        final(mixture).wf(),
    decreases effect,
{
    let ghost start = mixture@;
    let ghost reported = signals@;
    match effect {
        Effect::MoleConversion { from, to, consumed, produced } => {
            let done: bool = convert(mixture, from, to, *consumed, *produced);
            assert(texts(signals@) =~= texts(reported) + Seq::<Seq<char>>::empty());
            done
        },
        Effect::EnergyDelta { energy } => {
            let done: bool = heat(mixture, *energy);
            assert(texts(signals@) =~= texts(reported) + Seq::<Seq<char>>::empty());
            done
        },
        Effect::Signal { name } => {
            signals.push(*name);
            assert(texts(signals@) =~= texts(reported) + seq![name@]);
            true
        },
        Effect::Composite { parts } => {
            let n: usize = parts.len();
            let mut i: usize = 0;
            assert(texts(signals@) =~= texts(reported) + Seq::<Seq<char>>::empty());
            while i < n
                invariant
                    i <= n,
                    n == parts@.len(),
                    mixture.wf(),
                    parts_outcome(parts@, i as int, start).done,
                    mixture@ == parts_outcome(parts@, i as int, start).state,
                    texts(signals@) == texts(reported) + parts_outcome(
                        parts@,
                        i as int,
                        start,
                    ).signals,
                decreases n - i,
            {
                let ghost before = parts_outcome(parts@, i as int, start);
                let ghost step = effect_outcome(parts@[i as int], before.state);
                let done: bool = apply_effect(&parts[i], mixture, signals);
                proof {
                    assert(texts(signals@) =~= texts(reported) + (before.signals + step.signals));
                }
                i = i + 1;
                if !done {
                    proof {
                        lemma_parts_stop(parts@, i as int, n as int, start);
                    }
                    return false;
                }
            }
            true
        },
    }
}

/// A conversion leaves a valid mixture valid.
pub proof fn lemma_converted_is_valid(
    state: MixtureState,
    from: GasType,
    to: GasType,
    consumed: u64,
    produced: u64,
)
    requires
        state.wf(),
    ensures
        match converted(state, from, to, consumed, produced) {
            Some(next) => next.wf(),
            None => true,
        },
{
    let comp = state.composition;
    let rest = reduced(comp, from.key(), consumed);
    if converted(state, from, to, consumed, produced) is Some {
        lemma_amount_bounded(comp, from.key());
        if holds(comp, from.key()) {
            let at = slot(comp, from.key());
            assert(comp[at].gas.key() == from.key());
            let less = (amount(comp, from.key()) - consumed) as u64;
            assert(rest == with_entry(comp, comp[at].gas, less));
            lemma_with_entry(comp, comp[at].gas, less);
            lemma_with_entry_within_limits(comp, comp[at].gas, less);
        }
        let more = (amount(rest, to.key()) + produced) as u64;
        lemma_with_entry(rest, to, more);
        lemma_with_entry_within_limits(rest, to, more);
    }
}

/// Every effect leaves a valid mixture valid, whether it can be applied to
/// its end or not.
pub proof fn lemma_effect_keeps_valid(effect: Effect, state: MixtureState)
    requires
        state.wf(),
    ensures
        effect_outcome(effect, state).state.wf(),
    decreases effect,
{
    match effect {
        Effect::MoleConversion { from, to, consumed, produced } => {
            lemma_converted_is_valid(state, from, to, consumed, produced);
        },
        Effect::EnergyDelta { energy } => {},
        Effect::Signal { name } => {},
        Effect::Composite { parts } => {
            lemma_parts_keep_valid(parts@, parts@.len() as int, state);
        },
    }
}

/// Several effects, one after the other, leave a valid mixture valid.
pub proof fn lemma_parts_keep_valid(parts: Seq<Effect>, n: int, state: MixtureState)
    requires
        state.wf(),
    ensures
        parts_outcome(parts, n, state).state.wf(),
    decreases parts, n,
{
    if 0 < n <= parts.len() {
        lemma_parts_keep_valid(parts, n - 1, state);
        let before = parts_outcome(parts, n - 1, state);
        if before.done {
            lemma_effect_keeps_valid(parts[n - 1], before.state);
        }
    }
}

/// Whether a mixture in the given state meets the requirement. A species
/// without an entry counts as none of it, and an empty mixture has no thermal
/// energy to meet a floor with. A floor is met by the value that equals it.
pub open spec fn requirement_met(state: MixtureState, requirement: Requirement) -> bool {
    if requirement.key@ == TEMPERATURE_KEY@ {
        state.temperature >= requirement.minimum
    } else if requirement.key@ == THERMAL_ENERGY_KEY@ {
        state.composition.len() > 0 && state.thermal_energy() >= requirement.minimum
    } else {
        amount(state.composition, requirement.key@) >= requirement.minimum
    }
}

/// Whether a mixture in the given state meets every one of the requirements.
pub open spec fn eligible(state: MixtureState, requirements: Seq<Requirement>) -> bool {
    forall|i: int|
        0 <= i < requirements.len() ==> requirement_met(state, #[trigger] requirements[i])
}

/// A floor is inclusive: a reaction whose one requirement is a floor on the
/// temperature is eligible exactly when the temperature is the floor or
/// above it.
pub proof fn lemma_temperature_floor_is_inclusive(state: MixtureState, minimum: u128)
    ensures
        eligible(state, seq![Requirement { key: TEMPERATURE_KEY, minimum }]) == (state.temperature
            >= minimum),
{
    let requirements = seq![Requirement { key: TEMPERATURE_KEY, minimum }];
    assert(requirements[0] == (Requirement { key: TEMPERATURE_KEY, minimum }));
}

/// Whether the mixture meets the requirement.
pub fn meets(mixture: &GasMixture, requirement: &Requirement) -> (met: bool)
    requires
        mixture.wf(),
    ensures
        met == requirement_met(mixture@, *requirement),
{
    if same_text(requirement.key, TEMPERATURE_KEY) {
        mixture.temperature() as u128 >= requirement.minimum
    } else if same_text(requirement.key, THERMAL_ENERGY_KEY) {
        match mixture.thermal_energy() {
            Ok(energy) => energy >= requirement.minimum,
            Err(_) => false,
        }
    } else {
        mixture.amount_of(requirement.key) as u128 >= requirement.minimum
    }
}

/// A reaction: the floors that a mixture must reach for it to fire, what it
/// does when it fires, and its place among the other reactions. A reaction
/// with a lower priority is tried earlier.
#[derive(Debug, PartialEq, Eq)]
pub struct GasReaction {
    pub react: Effect,
    pub min_reqs: Vec<Requirement>,
    pub priority: usize,
    pub name: &'static str,
    pub id: &'static str,
}

impl GasReaction {
    /// A reaction with the given parts.
    pub fn new(
        name: &'static str,
        id: &'static str,
        react: Effect,
        min_reqs: Vec<Requirement>,
        priority: usize,
    ) -> (reaction: GasReaction)
        ensures
            reaction == (GasReaction { react, min_reqs, priority, name, id }),
    {
        GasReaction { react, min_reqs, priority, name, id }
    }

    /// Whether the mixture meets every requirement of the reaction.
    pub fn is_eligible(&self, mixture: &GasMixture) -> (fires: bool)
        requires
            mixture.wf(),
        ensures
            fires == eligible(mixture@, self.min_reqs@),
    {
        let n: usize = self.min_reqs.len();
        let mut i: usize = 0;
        while i < n
            invariant
                i <= n,
                n == self.min_reqs@.len(),
                mixture.wf(),
                forall|j: int|
                    0 <= j < i ==> requirement_met(mixture@, #[trigger] self.min_reqs@[j]),
            decreases n - i,
        {
            if !meets(mixture, &self.min_reqs[i]) {
                return false;
            }
            i = i + 1;
        }
        true
    }
}

/// What became of a mixture in one pass over the reactions: the state
/// reached, the ids of the reactions that fired, the signals that they
/// reported, and the id of the reaction whose effect could not be applied, if
/// there was one.
pub struct PassOutcome {
    pub state: MixtureState,
    pub fired: Seq<Seq<char>>,
    pub signals: Seq<Seq<char>>,
    pub failed: Option<Seq<char>>,
}

/// What one pass over the first `n` reactions does to a mixture. The
/// reactions are taken in their order, each once. A reaction fires if the
/// mixture, as the reactions before it left it, meets its requirements. The
/// pass ends at the first reaction whose effect cannot be applied; what was
/// done until then stays done.
pub open spec fn pass_outcome(rules: Seq<GasReaction>, n: int, state: MixtureState) -> PassOutcome
    decreases n,
{
    if n <= 0 || n > rules.len() {
        PassOutcome { state, fired: Seq::empty(), signals: Seq::empty(), failed: None }
    } else {
        let before = pass_outcome(rules, n - 1, state);
        let rule = rules[n - 1];
        if before.failed is Some || !eligible(before.state, rule.min_reqs@) {
            before
        } else {
            let step = effect_outcome(rule.react, before.state);
            if step.done {
                PassOutcome {
                    state: step.state,
                    fired: before.fired.push(rule.id@),
                    signals: before.signals + step.signals,
                    failed: None,
                }
            } else {
                PassOutcome {
                    state: step.state,
                    fired: before.fired,
                    signals: before.signals + step.signals,
                    failed: Some(rule.id@),
                }
            }
        }
    }
}

/// Once the effect of a reaction could not be applied, the outcome of the
/// pass stays what it was then.
pub proof fn lemma_pass_stops(rules: Seq<GasReaction>, stopped: int, n: int, state: MixtureState)
    requires
        0 <= stopped <= n <= rules.len(),
        pass_outcome(rules, stopped, state).failed is Some,
    ensures
        pass_outcome(rules, n, state) == pass_outcome(rules, stopped, state),
    decreases n - stopped,
{
    if stopped < n {
        lemma_pass_stops(rules, stopped, n - 1, state);
    }
}

/// A pass leaves a valid mixture valid, whether it ends in a failure or not.
pub proof fn lemma_pass_keeps_valid(rules: Seq<GasReaction>, n: int, state: MixtureState)
    requires
        state.wf(),
    ensures
        pass_outcome(rules, n, state).state.wf(),
    decreases n,
{
    if 0 < n <= rules.len() {
        lemma_pass_keeps_valid(rules, n - 1, state);
        let before = pass_outcome(rules, n - 1, state);
        lemma_effect_keeps_valid(rules[n - 1].react, before.state);
    }
}

/// A pass depends on the reactions and on the state of the mixture alone:
/// on two mixtures in the same state, the same reactions have the same
/// outcome.
pub proof fn lemma_pass_is_deterministic(
    rules: Seq<GasReaction>,
    first: MixtureState,
    second: MixtureState,
)
    requires
        first == second,
    ensures
        pass_outcome(rules, rules.len() as int, first) == pass_outcome(
            rules,
            rules.len() as int,
            second,
        ),
{
}

/// The reactions come in the order of their priorities, lowest first.
pub open spec fn ordered(rules: Seq<GasReaction>) -> bool {
    forall|i: int, j: int|
        #![trigger rules[i], rules[j]]
        0 <= i < j < rules.len() ==> rules[i].priority <= rules[j].priority
}

/// Where a new reaction of the given priority goes: behind every reaction
/// whose priority is no higher than its own.
pub open spec fn place_for(rules: Seq<GasReaction>, priority: usize) -> int
    decreases rules.len(),
{
    if rules.len() == 0 {
        0
    } else if rules.last().priority <= priority {
        rules.len() as int
    } else {
        place_for(rules.drop_last(), priority)
    }
}

/// What a pass reports to the caller: the ids of the reactions that fired, in
/// the order in which they fired, and the signals that their effects reported.
#[derive(Debug, PartialEq, Eq)]
pub struct ReactionReport {
    pub fired: Vec<&'static str>,
    pub signals: Vec<&'static str>,
}

/// The registry of reactions, kept in the order in which a pass tries them:
/// by priority, and among reactions of one priority by registration.
#[derive(Debug)]
pub struct ReactionEngine {
    rules: Vec<GasReaction>,
}

impl View for ReactionEngine {
    type V = Seq<GasReaction>;

    closed spec fn view(&self) -> Seq<GasReaction> {
        self.rules@
    }
}

impl ReactionEngine {
    /// The registry is in the order of the priorities.
    pub open spec fn wf(&self) -> bool {
        ordered(self@)
    }

    /// An engine without reactions.
    pub fn new() -> (engine: ReactionEngine)
        ensures
            engine@ == Seq::<GasReaction>::empty(),
            engine.wf(),
    {
        ReactionEngine { rules: Vec::new() }
    }

    /// How many reactions are registered.
    pub fn rule_count(&self) -> (count: usize)
        ensures
            count == self@.len(),
    {
        self.rules.len()
    }

    /// The reaction at the given place in the order of the pass.
    pub fn rule(&self, at: usize) -> (found: &GasReaction)
        requires
            at < self@.len(),
        ensures
            *found == self@[at as int],
    {
        &self.rules[at]
    }

    /// Registers a reaction: behind every reaction whose priority is no higher
    /// than its own, and before every other one.
    pub fn register(&mut self, rule: GasReaction)
        requires
            old(self).wf(),
        ensures
            final(self)@ == old(self)@.insert(place_for(old(self)@, rule.priority), rule),
            0 <= place_for(old(self)@, rule.priority) <= old(self)@.len(),
            forall|i: int|
                0 <= i < place_for(old(self)@, rule.priority) ==> (#[trigger] old(
                    self,
                )@[i]).priority <= rule.priority,
            forall|i: int|
                place_for(old(self)@, rule.priority) <= i < old(self)@.len() ==> (#[trigger] old(
                    self,
                )@[i]).priority > rule.priority,
            final(self).wf(),
    {
        let ghost rules = self.rules@;
        let mut at: usize = self.rules.len();
        assert(rules.take(at as int) =~= rules);
        while at > 0 && self.rules[at - 1].priority > rule.priority
            invariant
                at <= rules.len(),
                rules == self.rules@,
                place_for(rules, rule.priority) == place_for(rules.take(at as int), rule.priority),
                forall|i: int|
                    at <= i < rules.len() ==> (#[trigger] rules[i]).priority > rule.priority,
            decreases at,
        {
            proof {
                assert(rules.take(at as int).drop_last() =~= rules.take(at - 1));
            }
            at = at - 1;
        }
        proof {
            if at == 0 {
                assert(rules.take(0).len() == 0);
            } else {
                assert(rules.take(at as int).last() == rules[at - 1]);
                assert forall|i: int| 0 <= i < at implies (#[trigger] rules[i]).priority
                    <= rule.priority by {
                    if i < at - 1 {
                        assert(rules[i].priority <= rules[at - 1].priority);
                    }
                }
            }
            let after = rules.insert(at as int, rule);
            assert forall|i: int, j: int|
                #![trigger after[i], after[j]]
                0 <= i < j < after.len() implies after[i].priority <= after[j].priority by {
                if j < at {
                    assert(rules[i].priority <= rules[j].priority);
                } else if j == at {
                } else if i < at {
                    assert(rules[j - 1].priority > rule.priority);
                } else if i == at {
                    assert(rules[j - 1].priority > rule.priority);
                } else {
                    assert(rules[i - 1].priority <= rules[j - 1].priority);
                }
            }
        }
        self.rules.insert(at, rule);
    }

    /// Tells of every reaction, in the order of the pass, whether the mixture
    /// as it is meets its requirements.
    pub fn evaluate(&self, mixture: &GasMixture) -> (fires: Vec<bool>)
        requires
            mixture.wf(),
        ensures
            fires@.len() == self@.len(),
            forall|i: int|
                0 <= i < self@.len() ==> #[trigger] fires@[i] == eligible(
                    mixture@,
                    self@[i].min_reqs@,
                ),
    {
        let n: usize = self.rules.len();
        let mut fires: Vec<bool> = Vec::new();
        let mut i: usize = 0;
        while i < n
            invariant
                i <= n,
                n == self.rules@.len(),
                mixture.wf(),
                fires@.len() == i,
                forall|j: int|
                    0 <= j < i ==> #[trigger] fires@[j] == eligible(
                        mixture@,
                        self.rules@[j].min_reqs@,
                    ),
            decreases n - i,
        {
            fires.push(self.rules[i].is_eligible(mixture));
            i = i + 1;
        }
        fires
    }

    /// Runs one pass over the reactions: each is tried once, in order, against
    /// the mixture as the reactions before it left it, and fires if its
    /// requirements are met. Fails at the first reaction whose effect the
    /// mixture cannot take; what was done until then stays done.
    #[verifier::loop_isolation(false)]
    pub fn apply(&self, mixture: &mut GasMixture) -> (passed: Result<ReactionReport, AtmosError>)
        requires
            old(mixture).wf(),
        ensures
            final(mixture)@ == pass_outcome(self@, self@.len() as int, old(mixture)@).state,
            match passed {
                Ok(report) => {
                    let outcome = pass_outcome(self@, self@.len() as int, old(mixture)@);
                    &&& outcome.failed is None
                    &&& texts(report.fired@) == outcome.fired
                    &&& texts(report.signals@) == outcome.signals
                },
                Err(error) => match error {
                    AtmosError::ReactionEffectInvariantViolation { reaction } => pass_outcome(
                        self@,
                        self@.len() as int,
                        old(mixture)@,
                    ).failed == Some(reaction@),
                    _ => false,
                },
            },
            final(mixture).wf(),
    {
        let ghost start = mixture@;
        let n: usize = self.rules.len();
        let mut fired: Vec<&'static str> = Vec::new();
        let mut signals: Vec<&'static str> = Vec::new();
        let mut i: usize = 0;
        assert(texts(fired@) =~= Seq::<Seq<char>>::empty());
        assert(texts(signals@) =~= Seq::<Seq<char>>::empty());
        while i < n
            invariant
                i <= n,
                n == self.rules@.len(),
                mixture.wf(),
                pass_outcome(self.rules@, i as int, start).failed is None,
                mixture@ == pass_outcome(self.rules@, i as int, start).state,
                texts(fired@) == pass_outcome(self.rules@, i as int, start).fired,
                texts(signals@) == pass_outcome(self.rules@, i as int, start).signals,
            decreases n - i,
        {
            let rule: &GasReaction = &self.rules[i];
            let ghost before = pass_outcome(self.rules@, i as int, start);
            if rule.is_eligible(mixture) {
                let ghost step = effect_outcome(rule.react, before.state);
                let done: bool = apply_effect(&rule.react, mixture, &mut signals);
                proof {
                    assert(texts(signals@) =~= before.signals + step.signals);
                }
                if !done {
                    proof {
                        let ended = pass_outcome(self.rules@, i + 1, start);
                        assert(ended.failed == Some(rule.id@) && ended.state == step.state);
                        lemma_pass_stops(self.rules@, i + 1, n as int, start);
                    }
                    return Err(AtmosError::ReactionEffectInvariantViolation { reaction: rule.id });
                }
                fired.push(rule.id);
                proof {
                    assert(texts(fired@) =~= before.fired.push(rule.id@));
                }
            }
            i = i + 1;
        }
        Ok(ReactionReport { fired, signals })
    }
}

} // verus!
