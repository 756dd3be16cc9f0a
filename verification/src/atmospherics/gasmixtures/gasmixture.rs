use crate::atmospherics::gasmixtures::gastype::{same_text, GasType};
use crate::atmospherics::gasmixtures::composition::{
    absorbed, amount, amounts_bounded, distinct, drawn, heat_capacity_of, holds, left_over,
    lemma_absorbed, lemma_absorbed_grows, lemma_absorbed_len, lemma_absorbed_total,
    lemma_draw_totals, lemma_draw_valid, lemma_merge_fits, lemma_product_bound, lemma_share_bound,
    lemma_slot_is, lemma_weighted_average_bound, lemma_with_entry, lemma_zipped_round_trip,
    lemma_zipped_within_limits, lists_fit, merge_fits, newcomers, present_moles, ratio_parts, share, slot,
    total_moles_of, with_added, with_entry, with_moles, within_limits, zipped, Portion,
};
use crate::constants::num::{
    MAX_MOLES, MAX_SPECIES, MAX_SPECIFIC_HEAT, MAX_TEMPERATURE, MINIMUM_TEMP_DELTA_TO_CONSIDER,
    R_IDEAL_GAS_EQUATION, SCALE,
};
use crate::errors::AtmosError;
use vstd::prelude::*;

verus! {

/// What a mixture is, as a value: its composition, with one entry for each
/// asserted species in the order of their first assertion, its temperature in
/// millikelvin and its volume in litres.
pub struct MixtureState {
    pub composition: Seq<Portion>,
    pub temperature: u64,
    pub volume: usize,
}

impl MixtureState {
    /// The state is valid: no species has two entries, the composition is
    /// within the limits, the temperature is, and the volume is positive.
    pub open spec fn wf(&self) -> bool {
        &&& distinct(self.composition)
        &&& within_limits(self.composition)
        &&& self.temperature <= MAX_TEMPERATURE
        &&& self.volume > 0
    }

    /// The millimoles of all species together.
    pub open spec fn total_moles(&self) -> nat {
        total_moles_of(self.composition)
    }

    /// The heat capacity, in millijoules per kelvin.
    pub open spec fn heat_capacity(&self) -> nat {
        heat_capacity_of(self.composition)
    }

    /// The thermal energy, in microjoules: the heat capacity times the temperature.
    pub open spec fn thermal_energy(&self) -> nat {
        self.heat_capacity() * self.temperature as nat
    }

    /// The pressure in pascals by the ideal gas law, rounded down.
    pub open spec fn pressure(&self) -> nat {
        (self.total_moles() * R_IDEAL_GAS_EQUATION as nat * self.temperature as nat) / (
        self.volume as nat * 1_000_000)
    }

    /// Whether the temperature differs from that of `giver` by more than the
    /// least difference that counts.
    pub open spec fn differs_in_temperature(&self, giver: MixtureState) -> bool {
        self.temperature - giver.temperature > MINIMUM_TEMP_DELTA_TO_CONSIDER || giver.temperature
            - self.temperature > MINIMUM_TEMP_DELTA_TO_CONSIDER
    }

    /// The temperature after taking up `giver`. Where the two temperatures
    /// differ enough it is their average, each weighted by the heat capacity
    /// of its mixture and the result rounded down; otherwise, and where both
    /// heat capacities are zero, it is the temperature as it was.
    pub open spec fn merged_temperature(&self, giver: MixtureState) -> u64 {
        if self.differs_in_temperature(giver) && giver.heat_capacity() + self.heat_capacity() > 0 {
            ((giver.temperature * giver.heat_capacity() + self.temperature * self.heat_capacity())
                / (giver.heat_capacity() + self.heat_capacity()) as int) as u64
        } else {
            self.temperature
        }
    }

    /// The state after taking up `giver`: the amounts add up species by
    /// species, and the temperature is the merged one.
    pub open spec fn merged_with(&self, giver: MixtureState) -> MixtureState {
        MixtureState {
            composition: absorbed(self.composition, giver.composition),
            temperature: self.merged_temperature(giver),
            volume: self.volume,
        }
    }

    /// How much of the mixture a request for `amount` millimoles removes: the
    /// amount, but no more than there is.
    pub open spec fn removable(&self, amount: i64) -> nat {
        if amount < 0 {
            0
        } else if amount > self.total_moles() {
            self.total_moles()
        } else {
            amount as nat
        }
    }

    /// The same state with another composition.
    pub open spec fn with_composition(&self, composition: Seq<Portion>) -> MixtureState {
        MixtureState { composition, temperature: self.temperature, volume: self.volume }
    }
}

/// The state of a volume of gas: which species are in it and how much of each,
/// its temperature and its volume.
#[derive(Debug, PartialEq, Eq)]
pub struct GasMixture {
    gases: Vec<Portion>,
    /// Temperature of the mixture, in millikelvin.
    pub temperature: u64,
    /// Volume of the mixture, in litres.
    pub volume: usize,
}

impl View for GasMixture {
    type V = MixtureState;

    closed spec fn view(&self) -> MixtureState {
        MixtureState {
            composition: self.gases@,
            temperature: self.temperature,
            volume: self.volume,
        }
    }
}

impl Clone for GasMixture {
    /// A mixture in the same state.
    fn clone(&self) -> (copy: GasMixture)
        ensures
            copy@ == self@,
    {
        let n: usize = self.gases.len();
        let mut gases: Vec<Portion> = Vec::new();
        let mut i: usize = 0;
        while i < n
            invariant
                i <= n,
                n == self.gases@.len(),
                gases@ == self.gases@.take(i as int),
            decreases n - i,
        {
            gases.push(self.gases[i]);
            proof {
                assert(gases@ =~= self.gases@.take(i + 1));
            }
            i = i + 1;
        }
        proof {
            assert(gases@ =~= self.gases@);
        }
        GasMixture { gases, temperature: self.temperature, volume: self.volume }
    }
}

/// Where the entry of the species with the given id is in a list of entries,
/// if it has one.
fn find_entry(gases: &Vec<Portion>, id: &str) -> (found: Option<usize>)
    ensures
        match found {
            Some(at) => at < gases@.len() && gases@[at as int].gas.key() == id@,
            None => !holds(gases@, id@),
        },
{
    let n: usize = gases.len();
    let mut i: usize = 0;
    while i < n
        invariant
            i <= n,
            n == gases@.len(),
            forall|j: int| 0 <= j < i ==> (#[trigger] gases@[j]).gas.key() != id@,
        decreases n - i,
    {
        if same_text(gases[i].gas.id, id) {
            return Some(i);
        }
        i = i + 1;
    }
    None
}

/// Gives the species the amount, in its entry or in a new one at the end.
fn enter(gases: &mut Vec<Portion>, gas_type: &GasType, moles: u64)
    requires
        distinct(old(gases)@),
    ensures
        final(gases)@ == with_entry(old(gases)@, *gas_type, moles),
{
    match find_entry(gases, gas_type.id) {
        Some(at) => {
            proof {
                lemma_slot_is(gases@, gas_type.key(), at as int);
            }
            let gas: GasType = gases[at].gas;
            gases.set(at, Portion { gas, moles });
        },
        None => {
            gases.push(Portion { gas: *gas_type, moles });
        },
    }
}

/// Gives the species the millimoles more, in its entry or in a new one at the end.
fn add_to(gases: &mut Vec<Portion>, gas_type: &GasType, moles: u64)
    requires
        distinct(old(gases)@),
        amount(old(gases)@, gas_type.key()) + moles <= MAX_MOLES,
    ensures
        final(gases)@ == with_added(old(gases)@, *gas_type, moles),
{
    match find_entry(gases, gas_type.id) {
        Some(at) => {
            proof {
                lemma_slot_is(gases@, gas_type.key(), at as int);
            }
            let entry: Portion = gases[at];
            gases.set(at, Portion { gas: entry.gas, moles: entry.moles + moles });
        },
        None => {
            gases.push(Portion { gas: *gas_type, moles });
        },
    }
}

impl GasMixture {
    /// The mixture is valid, as its state is.
    pub open spec fn wf(&self) -> bool {
        self@.wf()
    }

    /// An empty mixture of the given temperature and volume. It is valid if
    /// the temperature is one that a mixture can have and the volume is
    /// positive.
    pub fn from_empty(temperature: u64, volume: usize) -> (mix: GasMixture)
        ensures
            mix@ == (MixtureState { composition: Seq::empty(), temperature, volume }),
            temperature <= MAX_TEMPERATURE && volume > 0 ==> mix.wf(),
    {
        GasMixture { gases: Vec::new(), temperature, volume }
    }

    /// A mixture with the given entries, temperature and volume, taken as
    /// they are. Whether it is valid is for the caller to know, or to ask.
    pub fn new(gases: Vec<Portion>, temperature: u64, volume: usize) -> (mix: GasMixture)
        ensures
            mix@ == (MixtureState { composition: gases@, temperature, volume }),
    {
        GasMixture { gases, temperature, volume }
    }

    /// A mixture made from a list of species and a list of their amounts, pair
    /// by pair; fails where the lists differ in length. Of two pairs that name
    /// one species, the first gives the descriptor and the last the amount.
    /// The mixture is valid if the lists fit, the temperature is one that a
    /// mixture can have and the volume is positive.
    pub fn from_vecs(
        gas_types: Vec<&GasType>,
        moles: Vec<u64>,
        temperature: u64,
        volume: usize,
    ) -> (made: Result<GasMixture, AtmosError>)
        ensures
            match made {
                Ok(mix) => {
                    &&& gas_types.len() == moles.len()
                    &&& mix@ == (MixtureState {
                        composition: zipped(gas_types@, moles@),
                        temperature,
                        volume,
                    })
                    &&& distinct(mix@.composition)
                    &&& lists_fit(gas_types@, moles@) && temperature <= MAX_TEMPERATURE && volume
                        > 0 ==> mix.wf()
                    &&& forall|i: int|
                        #![trigger gas_types[i]]
                        0 <= i < gas_types.len() && (forall|j: int|
                            i < j < gas_types.len() ==> (#[trigger] gas_types@[j]).key()
                                != gas_types@[i].key()) ==> present_moles(
                            mix@.composition,
                            gas_types[i].key(),
                        ) == (if moles[i] > 0 {
                            Some(moles[i])
                        } else {
                            None
                        })
                },
                Err(error) => gas_types.len() != moles.len() && error
                    == (AtmosError::VectorLengthMismatch {
                    gas_length: gas_types.len(),
                    mole_length: moles.len(),
                }),
            },
    {
        if gas_types.len() != moles.len() {
            return Err(
                AtmosError::VectorLengthMismatch {
                    gas_length: gas_types.len(),
                    mole_length: moles.len(),
                },
            );
        }
        let n: usize = gas_types.len();
        let mut gases: Vec<Portion> = Vec::new();
        let mut i: usize = 0;
        while i < n
            invariant
                i <= n,
                n == gas_types@.len(),
                n == moles@.len(),
                gases@ == zipped(gas_types@.take(i as int), moles@.take(i as int)),
                distinct(gases@),
            decreases n - i,
        {
            proof {
                assert(gas_types@.take(i + 1).drop_last() =~= gas_types@.take(i as int));
                assert(moles@.take(i + 1).drop_last() =~= moles@.take(i as int));
                lemma_with_entry(gases@, *gas_types[i as int], moles[i as int]);
            }
            enter(&mut gases, gas_types[i], moles[i]);
            i = i + 1;
        }
        proof {
            assert(gas_types@.take(n as int) =~= gas_types@);
            assert(moles@.take(n as int) =~= moles@);
            if lists_fit(gas_types@, moles@) {
                lemma_zipped_within_limits(gas_types@, moles@);
            }
            assert forall|i: int|
                #![trigger gas_types[i]]
                0 <= i < gas_types.len() && (forall|j: int|
                    i < j < gas_types.len() ==> (#[trigger] gas_types@[j]).key()
                        != gas_types@[i].key()) implies present_moles(gases@, gas_types[i].key())
                == (if moles[i] > 0 {
                    Some(moles[i])
                } else {
                    None
                }) by {
                lemma_zipped_round_trip(gas_types@, moles@, i);
            }
        }
        Ok(GasMixture { gases, temperature, volume })
    }

    /// Whether the mixture is valid. A mixture is when the functions of this
    /// library made it; one whose fields were set from outside may not be.
    pub fn is_valid(&self) -> (valid: bool)
        ensures
            valid == self.wf(),
    {
        let n: usize = self.gases.len();
        if self.temperature > MAX_TEMPERATURE || self.volume == 0 || n > MAX_SPECIES {
            return false;
        }
        let mut i: usize = 0;
        while i < n
            invariant
                i <= n,
                n == self.gases@.len(),
                forall|a: int|
                    0 <= a < i ==> (#[trigger] self.gases@[a]).moles <= MAX_MOLES
                        && self.gases@[a].gas.specific_heat <= MAX_SPECIFIC_HEAT,
                forall|a: int, b: int|
                    #![trigger self.gases@[a], self.gases@[b]]
                    0 <= a < b < i ==> self.gases@[a].gas.key() != self.gases@[b].gas.key(),
            decreases n - i,
        {
            let entry: Portion = self.gases[i];
            if entry.moles > MAX_MOLES || entry.gas.specific_heat > MAX_SPECIFIC_HEAT {
                return false;
            }
            let mut j: usize = 0;
            while j < i
                invariant
                    j <= i,
                    i < n,
                    n == self.gases@.len(),
                    entry == self.gases@[i as int],
                    forall|a: int|
                        0 <= a < j ==> (#[trigger] self.gases@[a]).gas.key() != entry.gas.key(),
                decreases i - j,
            {
                if self.gases[j].gas.same_species(&entry.gas) {
                    proof {
                        assert(self.gases@[j as int].gas.key() == self.gases@[i as int].gas.key());
                    }
                    return false;
                }
                j = j + 1;
            }
            i = i + 1;
        }
        true
    }

    /// Whether the mixture can take up `giver` without leaving the limits:
    /// what `merge` asks of the two beyond their being valid.
    pub fn can_take(&self, giver: &GasMixture) -> (fits: bool)
        requires
            self.wf(),
            giver.wf(),
        ensures
            fits == merge_fits(self@.composition, giver@.composition),
    {
        let ghost comp = self.gases@;
        let ghost given = giver.gases@;
        proof {
            lemma_merge_fits(comp, given);
            lemma_absorbed_len(comp, given);
        }
        let n: usize = giver.gases.len();
        let mut count: usize = self.gases.len();
        let mut i: usize = 0;
        while i < n
            invariant
                i <= n,
                n == given.len(),
                n <= MAX_SPECIES,
                comp == self.gases@,
                given == giver.gases@,
                distinct(comp),
                within_limits(comp),
                within_limits(given),
                distinct(given),
                count == comp.len() + newcomers(comp, given.take(i as int)),
                count <= comp.len() + i,
                forall|k: int|
                    0 <= k < i ==> amount(comp, (#[trigger] given[k]).gas.key()) + given[k].moles
                        <= MAX_MOLES,
            decreases n - i,
        {
            let entry: Portion = giver.gases[i];
            proof {
                assert(given.take(i + 1).drop_last() =~= given.take(i as int));
                assert(given.take(i + 1).last() == entry);
            }
            match find_entry(&self.gases, entry.gas.id) {
                Some(at) => {
                    proof {
                        lemma_slot_is(comp, entry.gas.key(), at as int);
                    }
                    if self.gases[at].moles > MAX_MOLES - entry.moles {
                        proof {
                            lemma_merge_fits(comp, given);
                            assert(amount(comp, given[i as int].gas.key()) + given[i as int].moles
                                > MAX_MOLES);
                        }
                        return false;
                    }
                },
                None => {
                    count = count + 1;
                },
            }
            i = i + 1;
        }
        proof {
            assert(given.take(n as int) =~= given);
        }
        count <= MAX_SPECIES
    }

    /// Where the entry of the species is, if it has one.
    fn find(&self, gas_type: &GasType) -> (found: Option<usize>)
        ensures
            match found {
                Some(at) => at < self@.composition.len() && self@.composition[at as int].gas.key()
                    == gas_type.key(),
                None => !holds(self@.composition, gas_type.key()),
            },
    {
        find_entry(&self.gases, gas_type.id)
    }

    /// The temperature of the mixture, in millikelvin.
    pub fn temperature(&self) -> (temperature: u64)
        ensures
            temperature == self@.temperature,
    {
        self.temperature
    }

    /// The volume of the mixture, in litres.
    pub fn volume(&self) -> (volume: usize)
        ensures
            volume == self@.volume,
    {
        self.volume
    }

    /// How many species have an entry.
    pub fn species_count(&self) -> (count: usize)
        ensures
            count == self@.composition.len(),
    {
        self.gases.len()
    }

    /// The entry at the given place, counted in the order of first assertion.
    pub fn portion(&self, at: usize) -> (entry: Portion)
        requires
            at < self@.composition.len(),
        ensures
            entry == self@.composition[at as int],
    {
        self.gases[at]
    }

    /// Whether the species has an entry, whatever its amount.
    pub fn is_asserted(&self, gas_type: &GasType) -> (asserted: bool)
        ensures
            asserted == holds(self@.composition, gas_type.key()),
    {
        self.find(gas_type).is_some()
    }

    /// The millimoles of the species with the given id, and 0 where it has no
    /// entry.
    pub fn amount_of(&self, id: &str) -> (moles: u64)
        requires
            self.wf(),
        ensures
            moles == amount(self@.composition, id@),
    {
        match find_entry(&self.gases, id) {
            Some(at) => {
                proof {
                    lemma_slot_is(self@.composition, id@, at as int);
                }
                self.gases[at].moles
            },
            None => 0,
        }
    }

    /// Sets the temperature, in millikelvin.
    pub fn set_temperature(&mut self, temperature: u64)
        requires
            old(self).wf(),
            temperature <= MAX_TEMPERATURE,
        ensures
            final(self)@ == (MixtureState {
                composition: old(self)@.composition,
                temperature,
                volume: old(self)@.volume,
            }),
            final(self).wf(),
    {
        self.temperature = temperature;
    }

    /// Whether the species is in the mixture with more than zero moles.
    pub fn gas_exists(&self, gas_type: &GasType) -> (exists: bool)
        requires
            self.wf(),
        ensures
            exists == (present_moles(self@.composition, gas_type.key()) is Some),
            exists == (holds(self@.composition, gas_type.key()) && amount(
                self@.composition,
                gas_type.key(),
            ) > 0),
    {
        match self.find(gas_type) {
            Some(at) => {
                proof {
                    lemma_slot_is(self@.composition, gas_type.key(), at as int);
                }
                self.gases[at].moles > 0
            },
            None => false,
        }
    }

    /// Whether no species was ever asserted into the mixture.
    pub fn is_empty(&self) -> (empty: bool)
        ensures
            empty == (self@.composition.len() == 0),
    {
        self.gases.len() == 0
    }

    /// Makes sure that the species has an entry, adding one with zero moles
    /// where it has none. Returns whether the entry was there before. No
    /// amount changes, so a species that was not in the mixture before is not
    /// in it afterwards either.
    pub fn assert_gas(&mut self, gas_type: &GasType) -> (existed: bool)
        requires
            old(self).wf(),
            gas_type.specific_heat <= MAX_SPECIFIC_HEAT,
            holds(old(self)@.composition, gas_type.key()) || old(self)@.composition.len()
                < MAX_SPECIES,
        ensures
            existed == holds(old(self)@.composition, gas_type.key()),
            existed ==> final(self)@ == old(self)@,
            !existed ==> final(self)@ == old(self)@.with_composition(
                old(self)@.composition.push(Portion { gas: *gas_type, moles: 0 }),
            ),
            holds(final(self)@.composition, gas_type.key()),
            forall|key: Seq<char>| #[trigger]
                holds(final(self)@.composition, key) == (holds(old(self)@.composition, key) || key
                    == gas_type.key()),
            forall|key: Seq<char>| #[trigger]
                amount(final(self)@.composition, key) == amount(old(self)@.composition, key),
            final(self).wf(),
    {
        match self.find(gas_type) {
            Some(at) => {
                proof {
                    lemma_slot_is(self@.composition, gas_type.key(), at as int);
                }
                true
            },
            None => {
                proof {
                    lemma_with_entry(self@.composition, *gas_type, 0);
                }
                self.gases.push(Portion { gas: *gas_type, moles: 0 });
                false
            },
        }
    }

    /// The millimoles of the species, if it is in the mixture with more than zero.
    pub fn get_moles(&self, gas_type: &GasType) -> (moles: Option<u64>)
        requires
            self.wf(),
        ensures
            moles == present_moles(self@.composition, gas_type.key()),
    {
        match self.find(gas_type) {
            Some(at) => {
                proof {
                    lemma_slot_is(self@.composition, gas_type.key(), at as int);
                }
                let moles: u64 = self.gases[at].moles;
                if moles > 0 {
                    Some(moles)
                } else {
                    None
                }
            },
            None => None,
        }
    }

    /// Sets the amount of a species that has an entry, however much of it there
    /// is; fails, and changes nothing, for a species that has none. The other
    /// species keep their amounts.
    pub fn change_moles(&mut self, gas_type: &GasType, moles: u64) -> (done: Result<
        (),
        AtmosError,
    >)
        requires
            old(self).wf(),
            moles <= MAX_MOLES,
        ensures
            holds(old(self)@.composition, gas_type.key()) ==> done == Ok::<(), AtmosError>(())
                && final(self)@ == old(self)@.with_composition(
                with_moles(
                    old(self)@.composition,
                    slot(old(self)@.composition, gas_type.key()),
                    moles,
                ),
            ),
            !holds(old(self)@.composition, gas_type.key()) ==> done == Err::<(), AtmosError>(
                AtmosError::GasNotFound { gas: *gas_type },
            ) && final(self)@ == old(self)@,
            forall|key: Seq<char>| #[trigger]
                holds(final(self)@.composition, key) == holds(old(self)@.composition, key),
            forall|key: Seq<char>| #[trigger]
                amount(final(self)@.composition, key) == (if done is Ok && key == gas_type.key() {
                    moles as nat
                } else {
                    amount(old(self)@.composition, key)
                }),
            final(self).wf(),
    {
        match self.find(gas_type) {
            Some(at) => {
                proof {
                    lemma_slot_is(self@.composition, gas_type.key(), at as int);
                    lemma_with_entry(self@.composition, *gas_type, moles);
                }
                let gas: GasType = self.gases[at].gas;
                self.gases.set(at, Portion { gas, moles });
                Ok(())
            },
            None => Err(AtmosError::GasNotFound { gas: *gas_type }),
        }
    }

    /// The millimoles of all entries together.
    fn sum_moles(&self) -> (sum: u64)
        requires
            self.wf(),
        ensures
            sum == self@.total_moles(),
            sum <= MAX_SPECIES * MAX_MOLES,
    {
        let n: usize = self.gases.len();
        let mut sum: u64 = 0;
        let mut i: usize = 0;
        while i < n
            invariant
                i <= n,
                n == self.gases@.len(),
                n <= MAX_SPECIES,
                forall|j: int| 0 <= j < n ==> (#[trigger] self.gases@[j]).moles <= MAX_MOLES,
                sum == total_moles_of(self.gases@.take(i as int)),
                sum <= i * MAX_MOLES,
            decreases n - i,
        {
            proof {
                assert(self.gases@.take(i + 1).drop_last() =~= self.gases@.take(i as int));
                assert((i + 1) * MAX_MOLES == i * MAX_MOLES + MAX_MOLES) by (nonlinear_arith);
                assert(i * MAX_MOLES <= 1023 * MAX_MOLES) by (nonlinear_arith)
                    requires
                        i <= 1023,
                ;
            }
            sum = sum + self.gases[i].moles;
            i = i + 1;
        }
        proof {
            assert(self.gases@.take(n as int) =~= self.gases@);
            assert(n * MAX_MOLES <= MAX_SPECIES * MAX_MOLES) by (nonlinear_arith)
                requires
                    n <= MAX_SPECIES,
            ;
        }
        sum
    }

    /// The heat capacity of all entries together.
    fn sum_heat_capacity(&self) -> (sum: u128)
        requires
            self.wf(),
        ensures
            sum == self@.heat_capacity(),
            sum <= MAX_SPECIES * (MAX_SPECIFIC_HEAT * MAX_MOLES),
    {
        let n: usize = self.gases.len();
        let mut sum: u128 = 0;
        let mut i: usize = 0;
        while i < n
            invariant
                i <= n,
                n == self.gases@.len(),
                n <= MAX_SPECIES,
                forall|j: int|
                    0 <= j < n ==> (#[trigger] self.gases@[j]).moles <= MAX_MOLES
                        && self.gases@[j].gas.specific_heat <= MAX_SPECIFIC_HEAT,
                sum == heat_capacity_of(self.gases@.take(i as int)),
                sum <= i * (MAX_SPECIFIC_HEAT * MAX_MOLES),
            decreases n - i,
        {
            let entry: Portion = self.gases[i];
            proof {
                assert(self.gases@.take(i + 1).drop_last() =~= self.gases@.take(i as int));
                lemma_product_bound(
                    entry.gas.specific_heat as int,
                    MAX_SPECIFIC_HEAT as int,
                    entry.moles as int,
                    MAX_MOLES as int,
                );
                assert((i + 1) * (MAX_SPECIFIC_HEAT * MAX_MOLES) == i * (MAX_SPECIFIC_HEAT
                    * MAX_MOLES) + MAX_SPECIFIC_HEAT * MAX_MOLES) by (nonlinear_arith);
                assert(i * (MAX_SPECIFIC_HEAT * MAX_MOLES) <= 1023 * (MAX_SPECIFIC_HEAT
                    * MAX_MOLES)) by (nonlinear_arith)
                    requires
                        i <= 1023,
                ;
            }
            sum = sum + (entry.gas.specific_heat as u128) * (entry.moles as u128);
            i = i + 1;
        }
        proof {
            assert(self.gases@.take(n as int) =~= self.gases@);
            assert(n * (MAX_SPECIFIC_HEAT * MAX_MOLES) <= MAX_SPECIES * (MAX_SPECIFIC_HEAT
                * MAX_MOLES)) by (nonlinear_arith)
                requires
                    n <= MAX_SPECIES,
            ;
        }
        sum
    }

    /// The millimoles of all species together; fails on a mixture without species.
    pub fn total_moles(&self) -> (total: Result<u64, AtmosError>)
        requires
            self.wf(),
        ensures
            match total {
                Ok(moles) => self@.composition.len() > 0 && moles == self@.total_moles(),
                Err(error) => self@.composition.len() == 0 && error == AtmosError::GasMixtureEmpty,
            },
    {
        if self.is_empty() {
            return Err(AtmosError::GasMixtureEmpty);
        }
        Ok(self.sum_moles())
    }

    /// The pressure of the mixture in pascals, by the ideal gas law and rounded
    /// down; fails on a mixture without species.
    pub fn return_pressure(&self) -> (pressure: Result<u128, AtmosError>)
        requires
            self.wf(),
        ensures
            match pressure {
                Ok(pascals) => self@.composition.len() > 0 && pascals == self@.pressure(),
                Err(error) => self@.composition.len() == 0 && error == AtmosError::GasMixtureEmpty,
            },
    {
        if self.is_empty() {
            return Err(AtmosError::GasMixtureEmpty);
        }
        let moles: u128 = self.sum_moles() as u128;
        proof {
            lemma_product_bound(
                moles as int,
                MAX_SPECIES * MAX_MOLES,
                self.temperature as int,
                MAX_TEMPERATURE as int,
            );
            assert(moles * R_IDEAL_GAS_EQUATION * self.temperature == (moles * self.temperature)
                * R_IDEAL_GAS_EQUATION) by (nonlinear_arith);
        }
        let energy: u128 = moles * (self.temperature as u128) * (R_IDEAL_GAS_EQUATION as u128);
        Ok(energy / ((self.volume as u128) * 1_000_000))
    }

    /// The heat capacity of the mixture in millijoules per kelvin: for each
    /// species its specific heat times its millimoles, all added up; fails on a
    /// mixture without species.
    pub fn heat_capacity(&self) -> (capacity: Result<u128, AtmosError>)
        requires
            self.wf(),
        ensures
            match capacity {
                Ok(value) => self@.composition.len() > 0 && value == self@.heat_capacity(),
                Err(error) => self@.composition.len() == 0 && error == AtmosError::GasMixtureEmpty,
            },
    {
        if self.is_empty() {
            return Err(AtmosError::GasMixtureEmpty);
        }
        Ok(self.sum_heat_capacity())
    }

    /// The thermal energy of the mixture in microjoules: its heat capacity
    /// times its temperature; fails on a mixture without species.
    pub fn thermal_energy(&self) -> (energy: Result<u128, AtmosError>)
        requires
            self.wf(),
        ensures
            match energy {
                Ok(value) => self@.composition.len() > 0 && value == self@.heat_capacity()
                    * self@.temperature,
                Err(error) => self@.composition.len() == 0 && error == AtmosError::GasMixtureEmpty,
            },
    {
        if self.is_empty() {
            return Err(AtmosError::GasMixtureEmpty);
        }
        let capacity: u128 = self.sum_heat_capacity();
        proof {
            lemma_product_bound(
                capacity as int,
                MAX_SPECIES * (MAX_SPECIFIC_HEAT * MAX_MOLES),
                self.temperature as int,
                MAX_TEMPERATURE as int,
            );
        }
        Ok(capacity * (self.temperature as u128))
    }
    /// Takes up all of `giver`. The amounts add up species by species, and
    /// where the temperatures differ enough the new temperature is their
    /// average weighted by heat capacity. Fails, and changes nothing, where
    /// either mixture is without species.
    ///
    /// The weighted average keeps the thermal energy only where the species of
    /// both mixtures have matching specific heats; elsewhere it is an accepted
    /// approximation.
    pub fn merge(&mut self, giver: GasMixture) -> (merged: Result<(), AtmosError>)
        requires
            old(self).wf(),
            giver.wf(),
            merge_fits(old(self)@.composition, giver@.composition),
        ensures
            match merged {
                Ok(_) => {
                    &&& old(self)@.composition.len() > 0
                    &&& giver@.composition.len() > 0
                    &&& final(self)@ == old(self)@.merged_with(giver@)
                    &&& final(self)@.total_moles() == old(self)@.total_moles()
                        + giver@.total_moles()
                    &&& forall|key: Seq<char>| #[trigger]
                        amount(final(self)@.composition, key) == amount(
                            old(self)@.composition,
                            key,
                        ) + amount(giver@.composition, key)
                    &&& forall|key: Seq<char>| #[trigger]
                        holds(final(self)@.composition, key) == (holds(
                            old(self)@.composition,
                            key,
                        ) || holds(giver@.composition, key))
                },
                Err(error) => {
                    &&& old(self)@.composition.len() == 0 || giver@.composition.len() == 0
                    &&& error == AtmosError::GasMixtureEmpty
                    &&& final(self)@ == old(self)@
                },
            },
            final(self).wf(),
    {
        if self.is_empty() || giver.is_empty() {
            return Err(AtmosError::GasMixtureEmpty);
        }
        let ghost own = self@;
        let ghost given = giver@.composition;
        proof {
            lemma_absorbed(own.composition, given);
            lemma_absorbed_total(own.composition, given);
        }
        let delta: u64 = if self.temperature > giver.temperature {
            self.temperature - giver.temperature
        } else {
            giver.temperature - self.temperature
        };
        if delta > MINIMUM_TEMP_DELTA_TO_CONSIDER {
            let own_capacity: u128 = self.sum_heat_capacity();
            let giver_capacity: u128 = giver.sum_heat_capacity();
            let combined: u128 = giver_capacity + own_capacity;
            if combined > 0 {
                proof {
                    lemma_weighted_average_bound(
                        giver.temperature as int,
                        giver_capacity as int,
                        self.temperature as int,
                        own_capacity as int,
                        MAX_TEMPERATURE as int,
                    );
                    assert(MAX_TEMPERATURE * (giver_capacity + own_capacity) <= MAX_TEMPERATURE * (2
                        * (MAX_SPECIES * (MAX_SPECIFIC_HEAT * MAX_MOLES)))) by (nonlinear_arith)
                        requires
                            giver_capacity + own_capacity <= 2 * (MAX_SPECIES * (MAX_SPECIFIC_HEAT
                                * MAX_MOLES)),
                    ;
                    lemma_product_bound(
                        giver.temperature as int,
                        MAX_TEMPERATURE as int,
                        giver_capacity as int,
                        MAX_SPECIES * (MAX_SPECIFIC_HEAT * MAX_MOLES),
                    );
                    lemma_product_bound(
                        self.temperature as int,
                        MAX_TEMPERATURE as int,
                        own_capacity as int,
                        MAX_SPECIES * (MAX_SPECIFIC_HEAT * MAX_MOLES),
                    );
                }
                let weighted: u128 = (giver.temperature as u128) * giver_capacity + (
                self.temperature as u128) * own_capacity;
                self.temperature = (weighted / combined) as u64;
            }
        }
        assert(self.temperature == own.merged_temperature(giver@));
        let n: usize = giver.gases.len();
        let mut i: usize = 0;
        while i < n
            invariant
                i <= n,
                n == giver.gases@.len(),
                given == giver.gases@,
                distinct(given),
                amounts_bounded(given),
                within_limits(given),
                distinct(own.composition),
                amounts_bounded(own.composition),
                merge_fits(own.composition, given),
                self.gases@ == absorbed(own.composition, given.take(i as int)),
                distinct(self.gases@),
                within_limits(self.gases@),
                self.temperature == own.merged_temperature(giver@),
                self.volume == own.volume,
            decreases n - i,
        {
            let entry: Portion = giver.gases[i];
            let ghost before = self.gases@;
            let ghost taken = given.take(i as int);
            proof {
                assert(given.take(i + 1).drop_last() =~= taken);
                assert(given.take(i + 1).last() == entry);
                assert(distinct(taken) && amounts_bounded(taken)) by {
                    assert forall|a: int, b: int|
                        #![trigger taken[a], taken[b]]
                        0 <= a < b < taken.len() implies taken[a].gas.key()
                        != taken[b].gas.key() by {
                        assert(given[a].gas.key() != given[b].gas.key());
                    }
                    assert forall|a: int| 0 <= a < taken.len() implies (#[trigger] taken[a]).moles
                        <= MAX_MOLES by {
                        assert(taken[a] == given[a]);
                    }
                }
                lemma_absorbed(own.composition, taken);
                if holds(taken, entry.gas.key()) {
                    let at = slot(taken, entry.gas.key());
                    assert(taken[at].gas.key() == entry.gas.key());
                    assert(given[at].gas.key() != given[i as int].gas.key());
                }
                lemma_slot_is(given, entry.gas.key(), i as int);
                assert(amount(given, entry.gas.key()) == entry.moles);
                assert(amount(before, entry.gas.key()) == amount(
                    own.composition,
                    entry.gas.key(),
                ));
                lemma_with_entry(
                    before,
                    entry.gas,
                    (amount(before, entry.gas.key()) + entry.moles) as u64,
                );
                lemma_absorbed_grows(own.composition, given, i + 1);
            }
            add_to(&mut self.gases, &entry.gas, entry.moles);
            i = i + 1;
        }
        proof {
            assert(given.take(n as int) =~= given);
        }
        Ok(())
    }
    /// Draws `numerator` parts in `denominator` of every species into a new
    /// mixture of the same temperature and volume.
    fn draw(&mut self, numerator: u64, denominator: u64) -> (taken: GasMixture)
        requires
            old(self).wf(),
            numerator <= denominator,
            denominator <= MAX_SPECIES * MAX_MOLES,
        ensures
            taken@ == old(self)@.with_composition(
                drawn(old(self)@.composition, numerator as nat, denominator as nat),
            ),
            final(self)@ == old(self)@.with_composition(
                left_over(old(self)@.composition, numerator as nat, denominator as nat),
            ),
            taken@.total_moles() + final(self)@.total_moles() == old(self)@.total_moles(),
            taken@.total_moles() * denominator <= old(self)@.total_moles() * numerator,
            taken.wf(),
            final(self).wf(),
    {
        let ghost start = self@;
        let ghost before = self.gases@;
        let ghost goal_taken = drawn(before, numerator as nat, denominator as nat);
        let ghost goal_rest = left_over(before, numerator as nat, denominator as nat);
        proof {
            lemma_draw_valid(before, numerator as nat, denominator as nat);
            lemma_draw_totals(before, numerator as nat, denominator as nat);
        }
        let n: usize = self.gases.len();
        let mut taken: Vec<Portion> = Vec::new();
        let mut i: usize = 0;
        while i < n
            invariant
                i <= n,
                n == before.len(),
                self.gases@.len() == n,
                taken@.len() == i,
                self.temperature == start.temperature,
                self.volume == start.volume,
                numerator <= denominator,
                denominator <= MAX_SPECIES * MAX_MOLES,
                amounts_bounded(before),
                goal_taken == drawn(before, numerator as nat, denominator as nat),
                goal_rest == left_over(before, numerator as nat, denominator as nat),
                forall|j: int| 0 <= j < i ==> #[trigger] taken@[j] == goal_taken[j],
                forall|j: int| 0 <= j < i ==> #[trigger] self.gases@[j] == goal_rest[j],
                forall|j: int| i <= j < n ==> #[trigger] self.gases@[j] == before[j],
            decreases n - i,
        {
            let entry: Portion = self.gases[i];
            proof {
                assert(entry == before[i as int]);
                lemma_share_bound(entry.moles, numerator as nat, denominator as nat);
                lemma_product_bound(
                    entry.moles as int,
                    MAX_MOLES as int,
                    numerator as int,
                    MAX_SPECIES * MAX_MOLES,
                );
            }
            let part: u64 = if denominator == 0 {
                0
            } else {
                (((entry.moles as u128) * (numerator as u128)) / (denominator as u128)) as u64
            };
            taken.push(Portion { gas: entry.gas, moles: part });
            self.gases.set(i, Portion { gas: entry.gas, moles: entry.moles - part });
            i = i + 1;
        }
        proof {
            assert(taken@ =~= goal_taken);
            assert(self.gases@ =~= goal_rest);
        }
        GasMixture { gases: taken, temperature: self.temperature, volume: self.volume }
    }

    /// Removes `amount` millimoles, or all there is if that is less, into a
    /// new mixture of the same temperature and volume. Every species gives
    /// the part of the amount that is its part of the mixture, rounded down.
    /// Fails, and changes nothing, where the amount is negative.
    pub fn remove(&mut self, amount: i64) -> (removed: Result<GasMixture, AtmosError>)
        requires
            old(self).wf(),
        ensures
            match removed {
                Ok(taken) => {
                    &&& amount >= 0
                    &&& taken@ == old(self)@.with_composition(
                        drawn(
                            old(self)@.composition,
                            old(self)@.removable(amount),
                            old(self)@.total_moles(),
                        ),
                    )
                    &&& final(self)@ == old(self)@.with_composition(
                        left_over(
                            old(self)@.composition,
                            old(self)@.removable(amount),
                            old(self)@.total_moles(),
                        ),
                    )
                    &&& taken@.total_moles() + final(self)@.total_moles() == old(
                        self,
                    )@.total_moles()
                    &&& taken@.total_moles() <= old(self)@.removable(amount)
                    &&& taken.wf()
                },
                Err(error) => {
                    &&& amount < 0
                    &&& error == (AtmosError::NegativeAmount { value: amount })
                    &&& final(self)@ == old(self)@
                },
            },
            final(self).wf(),
    {
        if amount < 0 {
            return Err(AtmosError::NegativeAmount { value: amount });
        }
        let total: u64 = self.sum_moles();
        let wanted: u64 = amount as u64;
        let part: u64 = if wanted > total {
            total
        } else {
            wanted
        };
        let taken: GasMixture = self.draw(part, total);
        proof {
            let drawn_total = taken@.total_moles();
            assert(drawn_total <= part) by (nonlinear_arith)
                requires
                    drawn_total * total <= total * part,
                    drawn_total <= total,
                    part <= total,
            ;
        }
        Ok(taken)
    }

    /// Removes `ratio` thousandths of every species, or all of it where the
    /// ratio is more than a thousand, into a new mixture of the same
    /// temperature and volume; each share is rounded down. Fails, and changes
    /// nothing, where the ratio is not positive.
    pub fn remove_ratio(&mut self, ratio: i64) -> (removed: Result<GasMixture, AtmosError>)
        requires
            old(self).wf(),
        ensures
            match removed {
                Ok(taken) => {
                    &&& ratio > 0
                    &&& taken@ == old(self)@.with_composition(
                        drawn(old(self)@.composition, ratio_parts(ratio), SCALE as nat),
                    )
                    &&& final(self)@ == old(self)@.with_composition(
                        left_over(old(self)@.composition, ratio_parts(ratio), SCALE as nat),
                    )
                    &&& taken@.total_moles() + final(self)@.total_moles() == old(
                        self,
                    )@.total_moles()
                    &&& taken@.total_moles() * SCALE <= old(self)@.total_moles() * ratio_parts(
                        ratio,
                    )
                    &&& taken.wf()
                },
                Err(error) => {
                    &&& ratio <= 0
                    &&& error == (AtmosError::NegativeAmount { value: ratio })
                    &&& final(self)@ == old(self)@
                },
            },
            final(self).wf(),
    {
        if ratio <= 0 {
            return Err(AtmosError::NegativeAmount { value: ratio });
        }
        let parts: u64 = if ratio > 1000 {
            SCALE
        } else {
            ratio as u64
        };
        Ok(self.draw(parts, SCALE))
    }
}

} // verus!
