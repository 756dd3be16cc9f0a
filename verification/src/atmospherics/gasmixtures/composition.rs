use crate::atmospherics::gasmixtures::gastype::GasType;
use crate::constants::num::{MAX_MOLES, MAX_SPECIES, MAX_SPECIFIC_HEAT, SCALE};
use vstd::prelude::*;

verus! {

/// One species of a mixture and how many millimoles of it there are.
#[derive(Clone, Copy, Debug, PartialEq, Eq)]
pub struct Portion {
    pub gas: GasType,
    pub moles: u64,
}

/// Whether the composition has an entry for the species `key`, whatever its amount.
pub open spec fn holds(comp: Seq<Portion>, key: Seq<char>) -> bool {
    exists|i: int| 0 <= i < comp.len() && (#[trigger] comp[i]).gas.key() == key
}

/// The place of the entry for the species `key`, where there is one.
pub open spec fn slot(comp: Seq<Portion>, key: Seq<char>) -> int {
    choose|i: int| 0 <= i < comp.len() && (#[trigger] comp[i]).gas.key() == key
}

/// The millimoles of the species `key`: those of its entry, and 0 where it has none.
pub open spec fn amount(comp: Seq<Portion>, key: Seq<char>) -> nat {
    if holds(comp, key) {
        comp[slot(comp, key)].moles as nat
    } else {
        0
    }
}

/// No species has two entries.
pub open spec fn distinct(comp: Seq<Portion>) -> bool {
    forall|i: int, j: int|
        #![trigger comp[i], comp[j]]
        0 <= i < j < comp.len() ==> comp[i].gas.key() != comp[j].gas.key()
}

/// The composition is no larger than a mixture can be: in the number of its
/// entries, in each amount and in each specific heat.
pub open spec fn within_limits(comp: Seq<Portion>) -> bool {
    &&& comp.len() <= MAX_SPECIES
    &&& forall|i: int|
        0 <= i < comp.len() ==> (#[trigger] comp[i]).moles <= MAX_MOLES
            && comp[i].gas.specific_heat <= MAX_SPECIFIC_HEAT
}

/// What the mixture reports for the species `key`: its amount where that is
/// positive, and nothing for a species with no entry or with none left.
pub open spec fn present_moles(comp: Seq<Portion>, key: Seq<char>) -> Option<u64> {
    if amount(comp, key) > 0 {
        Some(amount(comp, key) as u64)
    } else {
        None
    }
}

/// The composition with the amount of the species at `at` replaced.
pub open spec fn with_moles(comp: Seq<Portion>, at: int, moles: u64) -> Seq<Portion> {
    comp.update(at, Portion { gas: comp[at].gas, moles })
}

/// The millimoles of all entries together.
pub open spec fn total_moles_of(comp: Seq<Portion>) -> nat
    decreases comp.len(),
{
    if comp.len() == 0 {
        0
    } else {
        total_moles_of(comp.drop_last()) + comp.last().moles as nat
    }
}

/// The heat capacity of a composition, in millijoules per kelvin: for each
/// entry its specific heat times its millimoles, all added up.
pub open spec fn heat_capacity_of(comp: Seq<Portion>) -> nat
    decreases comp.len(),
{
    if comp.len() == 0 {
        0
    } else {
        heat_capacity_of(comp.drop_last()) + (comp.last().gas.specific_heat
            * comp.last().moles) as nat
    }
}

/// A product of two bounded naturals is bounded by the product of the bounds.
pub proof fn lemma_product_bound(x: int, x_max: int, y: int, y_max: int)
    by (nonlinear_arith)
    requires
        0 <= x <= x_max,
        0 <= y <= y_max,
    ensures
        0 <= x * y <= x_max * y_max,
{
}

/// The entry at `at` is the one, and the only one, for its species.
pub proof fn lemma_slot_is(comp: Seq<Portion>, key: Seq<char>, at: int)
    requires
        distinct(comp),
        0 <= at < comp.len(),
        comp[at].gas.key() == key,
    ensures
        holds(comp, key),
        slot(comp, key) == at,
{
    let chosen = slot(comp, key);
    assert(0 <= chosen < comp.len() && comp[chosen].gas.key() == key);
    if chosen < at {
        assert(comp[chosen].gas.key() != comp[at].gas.key());
    } else if at < chosen {
        assert(comp[at].gas.key() != comp[chosen].gas.key());
    }
}

/// The composition in which the species has the given amount: in its entry
/// where it has one, and otherwise in a new entry at the end.
pub open spec fn with_entry(comp: Seq<Portion>, gas: GasType, moles: u64) -> Seq<Portion> {
    if holds(comp, gas.key()) {
        with_moles(comp, slot(comp, gas.key()), moles)
    } else {
        comp.push(Portion { gas, moles })
    }
}

/// The composition that two lists of equal length describe, one of species and
/// one of amounts: the pairs are entered from first to last, so of two pairs
/// with one species the later one gives the amount.
pub open spec fn zipped(gases: Seq<&GasType>, moles: Seq<u64>) -> Seq<Portion>
    decreases gases.len(),
{
    if gases.len() == 0 || gases.len() != moles.len() {
        Seq::empty()
    } else {
        with_entry(zipped(gases.drop_last(), moles.drop_last()), *gases.last(), moles.last())
    }
}

/// Two compositions with the same species at the same places hold the same
/// species, and have no species twice if the other has none.
pub proof fn lemma_same_keys(a: Seq<Portion>, b: Seq<Portion>)
    requires
        a.len() == b.len(),
        forall|i: int| 0 <= i < a.len() ==> (#[trigger] a[i]).gas.key() == b[i].gas.key(),
    ensures
        distinct(a) ==> distinct(b),
        forall|key: Seq<char>| holds(a, key) ==> #[trigger] holds(b, key),
        forall|key: Seq<char>|
            #![trigger slot(b, key)]
            distinct(a) && holds(a, key) ==> slot(b, key) == slot(a, key),
{
    if distinct(a) {
        assert forall|i: int, j: int|
            #![trigger b[i], b[j]]
            0 <= i < j < b.len() implies b[i].gas.key() != b[j].gas.key() by {
            assert(a[i].gas.key() != a[j].gas.key());
        }
    }
    assert forall|key: Seq<char>| holds(a, key) implies #[trigger] holds(b, key) by {
        let at = slot(a, key);
        assert(a[at].gas.key() == key);
        assert(b[at].gas.key() == key);
    }
    assert forall|key: Seq<char>|
        #![trigger slot(b, key)]
        distinct(a) && holds(a, key) implies slot(b, key) == slot(a, key) by {
        let at = slot(a, key);
        assert(a[at].gas.key() == key);
        assert(b[at].gas.key() == key);
        lemma_slot_is(b, key, at);
    }
}

/// What entering a species does to a composition without double entries: none
/// arises, the species is held afterwards with the amount entered, and every
/// other species keeps its amount.
pub proof fn lemma_with_entry(comp: Seq<Portion>, gas: GasType, moles: u64)
    requires
        distinct(comp),
    ensures
        distinct(with_entry(comp, gas, moles)),
        with_entry(comp, gas, moles).len() == comp.len() + (if holds(comp, gas.key()) {
            0int
        } else {
            1int
        }),
        forall|key: Seq<char>| #[trigger]
            holds(with_entry(comp, gas, moles), key) == (holds(comp, key) || key == gas.key()),
        forall|key: Seq<char>| #[trigger]
            amount(with_entry(comp, gas, moles), key) == (if key == gas.key() {
                moles as nat
            } else {
                amount(comp, key)
            }),
{
    let after = with_entry(comp, gas, moles);
    if holds(comp, gas.key()) {
        let at = slot(comp, gas.key());
        assert(comp[at].gas.key() == gas.key());
        assert forall|i: int| 0 <= i < comp.len() implies (#[trigger] comp[i]).gas.key()
            == after[i].gas.key() by {}
        lemma_same_keys(comp, after);
        assert forall|i: int| 0 <= i < comp.len() implies (#[trigger] after[i]).gas.key()
            == comp[i].gas.key() by {}
        lemma_same_keys(after, comp);
        assert forall|key: Seq<char>| #[trigger]
            amount(after, key) == (if key == gas.key() {
                moles as nat
            } else {
                amount(comp, key)
            }) by {
            if holds(comp, key) {
                assert(holds(after, key));
                assert(slot(after, key) == slot(comp, key));
                let place = slot(comp, key);
                assert(comp[place].gas.key() == key);
            } else {
                if holds(after, key) {
                    assert(holds(comp, key));
                }
            }
        }
        assert forall|key: Seq<char>| #[trigger]
            holds(after, key) == (holds(comp, key) || key == gas.key()) by {
            if holds(after, key) {
                assert(holds(comp, key));
            }
        }
    } else {
        let added = Portion { gas, moles };
        assert forall|i: int, j: int|
            #![trigger after[i], after[j]]
            0 <= i < j < after.len() implies after[i].gas.key() != after[j].gas.key() by {
            if j < comp.len() {
                assert(comp[i].gas.key() != comp[j].gas.key());
            } else {
                assert(after[i] == comp[i]);
            }
        }
        assert(after[comp.len() as int] == added);
        lemma_slot_is(after, gas.key(), comp.len() as int);
        assert forall|key: Seq<char>| #[trigger]
            holds(after, key) == (holds(comp, key) || key == gas.key()) by {
            if holds(comp, key) {
                let place = slot(comp, key);
                assert(after[place] == comp[place]);
            }
            if holds(after, key) && key != gas.key() {
                let place = slot(after, key);
                assert(after[place].gas.key() == key);
                assert(place < comp.len());
                assert(after[place] == comp[place]);
            }
        }
        assert forall|key: Seq<char>| #[trigger]
            amount(after, key) == (if key == gas.key() {
                moles as nat
            } else {
                amount(comp, key)
            }) by {
            if key != gas.key() && holds(comp, key) {
                let place = slot(comp, key);
                assert(comp[place].gas.key() == key);
                assert(after[place] == comp[place]);
                lemma_slot_is(after, key, place);
            }
        }
    }
}

/// Entering a species keeps a composition within the limits, as long as the
/// amount entered is, and a species that is new finds room and has a specific
/// heat within the limit.
pub proof fn lemma_with_entry_within_limits(comp: Seq<Portion>, gas: GasType, moles: u64)
    requires
        within_limits(comp),
        moles <= MAX_MOLES,
        holds(comp, gas.key()) || (comp.len() < MAX_SPECIES && gas.specific_heat
            <= MAX_SPECIFIC_HEAT),
    ensures
        within_limits(with_entry(comp, gas, moles)),
{
    let after = with_entry(comp, gas, moles);
    if holds(comp, gas.key()) {
        let at = slot(comp, gas.key());
        assert(comp[at].gas.key() == gas.key());
        assert forall|i: int| 0 <= i < after.len() implies (#[trigger] after[i]).moles
            <= MAX_MOLES && after[i].gas.specific_heat <= MAX_SPECIFIC_HEAT by {
            assert(comp[i].moles <= MAX_MOLES);
        }
    } else {
        assert forall|i: int| 0 <= i < after.len() implies (#[trigger] after[i]).moles
            <= MAX_MOLES && after[i].gas.specific_heat <= MAX_SPECIFIC_HEAT by {
            if i < comp.len() {
                assert(after[i] == comp[i]);
                assert(comp[i].moles <= MAX_MOLES);
            }
        }
    }
}

/// The composition that two lists describe has no species twice.
pub proof fn lemma_zipped_distinct(gases: Seq<&GasType>, moles: Seq<u64>)
    ensures
        distinct(zipped(gases, moles)),
    decreases gases.len(),
{
    if gases.len() != 0 && gases.len() == moles.len() {
        lemma_zipped_distinct(gases.drop_last(), moles.drop_last());
        lemma_with_entry(
            zipped(gases.drop_last(), moles.drop_last()),
            *gases.last(),
            moles.last(),
        );
    }
}

/// Whether two lists describe a composition that a mixture can have: there
/// are not too many species, and no amount and no specific heat is beyond
/// the limit.
pub open spec fn lists_fit(gases: Seq<&GasType>, moles: Seq<u64>) -> bool {
    &&& zipped(gases, moles).len() <= MAX_SPECIES
    &&& forall|i: int| 0 <= i < moles.len() ==> (#[trigger] moles[i]) <= MAX_MOLES
    &&& forall|i: int|
        0 <= i < gases.len() ==> (#[trigger] gases[i]).specific_heat <= MAX_SPECIFIC_HEAT
}

/// Lists that fit describe a composition within the limits.
pub proof fn lemma_zipped_within_limits(gases: Seq<&GasType>, moles: Seq<u64>)
    requires
        lists_fit(gases, moles),
    ensures
        within_limits(zipped(gases, moles)),
    decreases gases.len(),
{
    if gases.len() != 0 && gases.len() == moles.len() {
        let front_gases = gases.drop_last();
        let front_moles = moles.drop_last();
        let front = zipped(front_gases, front_moles);
        lemma_zipped_distinct(front_gases, front_moles);
        lemma_with_entry(front, *gases.last(), moles.last());
        assert(lists_fit(front_gases, front_moles)) by {
            assert forall|i: int| 0 <= i < front_moles.len() implies (#[trigger] front_moles[i])
                <= MAX_MOLES by {
                assert(front_moles[i] == moles[i]);
            }
            assert forall|i: int| 0 <= i < front_gases.len() implies (
            #[trigger] front_gases[i]).specific_heat <= MAX_SPECIFIC_HEAT by {
                assert(front_gases[i] == gases[i]);
            }
        }
        lemma_zipped_within_limits(front_gases, front_moles);
        let all = zipped(gases, moles);
        assert(gases.last() == gases[gases.len() - 1]);
        assert(moles.last() == moles[moles.len() - 1]);
        assert forall|i: int| 0 <= i < all.len() implies (#[trigger] all[i]).moles <= MAX_MOLES
            && all[i].gas.specific_heat <= MAX_SPECIFIC_HEAT by {
            if i < front.len() {
                assert(front[i].moles <= MAX_MOLES);
            }
        }
    }
}

/// A composition made from two lists gives back the amount of every pair whose
/// species no later pair names again.
pub proof fn lemma_zipped_round_trip(gases: Seq<&GasType>, moles: Seq<u64>, i: int)
    requires
        gases.len() == moles.len(),
        0 <= i < gases.len(),
        forall|j: int| i < j < gases.len() ==> (#[trigger] gases[j]).key() != gases[i].key(),
    ensures
        holds(zipped(gases, moles), gases[i].key()),
        amount(zipped(gases, moles), gases[i].key()) == moles[i],
        present_moles(zipped(gases, moles), gases[i].key()) == (if moles[i] > 0 {
            Some(moles[i])
        } else {
            None
        }),
    decreases gases.len(),
{
    let front_gases = gases.drop_last();
    let front_moles = moles.drop_last();
    let front = zipped(front_gases, front_moles);
    let last = gases.len() - 1;
    lemma_zipped_distinct(front_gases, front_moles);
    lemma_with_entry(front, *gases.last(), moles.last());
    let all = zipped(gases, moles);
    assert(all == with_entry(front, *gases[last], moles[last]));
    if i < last {
        assert(gases[last].key() != gases[i].key());
        assert(front_gases[i] == gases[i]);
        assert(front_moles[i] == moles[i]);
        assert forall|j: int| i < j < front_gases.len() implies (#[trigger] front_gases[j]).key()
            != front_gases[i].key() by {
            assert(front_gases[j] == gases[j]);
        }
        lemma_zipped_round_trip(front_gases, front_moles, i);
    }
    assert(holds(all, gases[i].key()));
    assert(amount(all, gases[i].key()) == moles[i]);
}

/// The composition in which the species has the given millimoles more: in its
/// entry where it has one, and otherwise in a new entry at the end.
pub open spec fn with_added(comp: Seq<Portion>, gas: GasType, moles: u64) -> Seq<Portion> {
    with_entry(comp, gas, (amount(comp, gas.key()) + moles) as u64)
}

/// The composition that has taken up every entry of `giver`, from first to last.
pub open spec fn absorbed(comp: Seq<Portion>, giver: Seq<Portion>) -> Seq<Portion>
    decreases giver.len(),
{
    if giver.len() == 0 {
        comp
    } else {
        with_added(absorbed(comp, giver.drop_last()), giver.last().gas, giver.last().moles)
    }
}

/// Every amount of the composition is within the limit of one species.
pub open spec fn amounts_bounded(comp: Seq<Portion>) -> bool {
    forall|i: int| 0 <= i < comp.len() ==> (#[trigger] comp[i]).moles <= MAX_MOLES
}

/// A mixture with the composition `comp` can take up `giver`: no species
/// comes to more than a mixture holds of one, and there are not too many.
pub open spec fn merge_fits(comp: Seq<Portion>, giver: Seq<Portion>) -> bool {
    &&& forall|key: Seq<char>|
        #![trigger amount(giver, key)]
        amount(comp, key) + amount(giver, key) <= MAX_MOLES
    &&& absorbed(comp, giver).len() <= MAX_SPECIES
}

/// The amount of a species is bounded as every amount is.
pub proof fn lemma_amount_bounded(comp: Seq<Portion>, key: Seq<char>)
    requires
        amounts_bounded(comp),
    ensures
        amount(comp, key) <= MAX_MOLES,
{
    if holds(comp, key) {
        let at = slot(comp, key);
        assert(comp[at].moles <= MAX_MOLES);
    }
}

/// The last entry of a composition without double entries is the only one for
/// its species: without it the species is not held, and the others are as before.
pub proof fn lemma_last_entry(comp: Seq<Portion>)
    requires
        distinct(comp),
        comp.len() > 0,
    ensures
        distinct(comp.drop_last()),
        !holds(comp.drop_last(), comp.last().gas.key()),
        comp == with_entry(comp.drop_last(), comp.last().gas, comp.last().moles),
{
    let front = comp.drop_last();
    let last = comp.last();
    assert forall|i: int, j: int|
        #![trigger front[i], front[j]]
        0 <= i < j < front.len() implies front[i].gas.key() != front[j].gas.key() by {
        assert(comp[i].gas.key() != comp[j].gas.key());
    }
    if holds(front, last.gas.key()) {
        let at = slot(front, last.gas.key());
        assert(front[at].gas.key() == last.gas.key());
        assert(comp[at].gas.key() != comp[comp.len() - 1].gas.key());
    }
    assert(comp =~= front.push(last));
}

/// Merging adds up: after a composition has taken up another, it has no
/// species twice, it holds the species that either held, and of each species
/// it has what the two had together.
pub proof fn lemma_absorbed(comp: Seq<Portion>, giver: Seq<Portion>)
    requires
        distinct(comp),
        distinct(giver),
        amounts_bounded(comp),
        amounts_bounded(giver),
    ensures
        distinct(absorbed(comp, giver)),
        forall|key: Seq<char>| #[trigger]
            holds(absorbed(comp, giver), key) == (holds(comp, key) || holds(giver, key)),
        forall|key: Seq<char>| #[trigger]
            amount(absorbed(comp, giver), key) == amount(comp, key) + amount(giver, key),
    decreases giver.len(),
{
    if giver.len() > 0 {
        let front = giver.drop_last();
        let last = giver.last();
        lemma_last_entry(giver);
        assert(amounts_bounded(front)) by {
            assert forall|i: int| 0 <= i < front.len() implies (#[trigger] front[i]).moles
                <= MAX_MOLES by {
                assert(front[i] == giver[i]);
            }
        }
        lemma_absorbed(comp, front);
        lemma_with_entry(front, last.gas, last.moles);
        let before = absorbed(comp, front);
        lemma_amount_bounded(comp, last.gas.key());
        assert(last == giver[giver.len() - 1]);
        assert(amount(front, last.gas.key()) == 0);
        assert(amount(before, last.gas.key()) == amount(comp, last.gas.key()));
        let sum = (amount(before, last.gas.key()) + last.moles) as u64;
        assert(sum == amount(comp, last.gas.key()) + last.moles);
        lemma_with_entry(before, last.gas, sum);
        let after = absorbed(comp, giver);
        assert(after == with_entry(before, last.gas, sum));
        assert forall|key: Seq<char>| #[trigger]
            holds(after, key) == (holds(comp, key) || holds(giver, key)) by {
            assert(holds(giver, key) == (holds(front, key) || key == last.gas.key()));
            assert(holds(before, key) == (holds(comp, key) || holds(front, key)));
        }
        assert forall|key: Seq<char>| #[trigger]
            amount(after, key) == amount(comp, key) + amount(giver, key) by {
            assert(amount(giver, key) == (if key == last.gas.key() {
                last.moles as nat
            } else {
                amount(front, key)
            }));
            assert(amount(before, key) == amount(comp, key) + amount(front, key));
        }
    }
}

/// A composition that has taken up the first `n` entries of another has no
/// more entries than one that has taken up all of them.
pub proof fn lemma_absorbed_grows(comp: Seq<Portion>, giver: Seq<Portion>, n: int)
    requires
        distinct(comp),
        distinct(giver),
        amounts_bounded(comp),
        amounts_bounded(giver),
        0 <= n <= giver.len(),
    ensures
        absorbed(comp, giver.take(n)).len() <= absorbed(comp, giver).len(),
    decreases giver.len(),
{
    if n == giver.len() {
        assert(giver.take(n) =~= giver);
    } else {
        let front = giver.drop_last();
        lemma_last_entry(giver);
        assert(amounts_bounded(front)) by {
            assert forall|i: int| 0 <= i < front.len() implies (#[trigger] front[i]).moles
                <= MAX_MOLES by {
                assert(front[i] == giver[i]);
            }
        }
        lemma_absorbed_grows(comp, front, n);
        assert(front.take(n) =~= giver.take(n));
        lemma_absorbed(comp, front);
        let before = absorbed(comp, front);
        let last = giver.last();
        lemma_with_entry(before, last.gas, (amount(before, last.gas.key()) + last.moles) as u64);
    }
}

/// How many entries of `giver` are for species that `comp` does not hold.
pub open spec fn newcomers(comp: Seq<Portion>, giver: Seq<Portion>) -> nat
    decreases giver.len(),
{
    if giver.len() == 0 {
        0
    } else {
        newcomers(comp, giver.drop_last()) + (if holds(comp, giver.last().gas.key()) {
            0nat
        } else {
            1nat
        })
    }
}

/// A composition that has taken up another has its own entries and one more
/// for each species that only the other held.
pub proof fn lemma_absorbed_len(comp: Seq<Portion>, giver: Seq<Portion>)
    requires
        distinct(comp),
        distinct(giver),
        amounts_bounded(comp),
        amounts_bounded(giver),
    ensures
        absorbed(comp, giver).len() == comp.len() + newcomers(comp, giver),
    decreases giver.len(),
{
    if giver.len() > 0 {
        let front = giver.drop_last();
        let last = giver.last();
        lemma_last_entry(giver);
        assert(amounts_bounded(front)) by {
            assert forall|i: int| 0 <= i < front.len() implies (#[trigger] front[i]).moles
                <= MAX_MOLES by {
                assert(front[i] == giver[i]);
            }
        }
        lemma_absorbed_len(comp, front);
        lemma_absorbed(comp, front);
        let before = absorbed(comp, front);
        assert(holds(before, last.gas.key()) == holds(comp, last.gas.key()));
        lemma_with_entry(before, last.gas, (amount(before, last.gas.key()) + last.moles) as u64);
    }
}

/// Whether a mixture can take up another is decided entry by entry of the
/// other: each must stay within the limit together with what the mixture has
/// of its species.
pub proof fn lemma_merge_fits(comp: Seq<Portion>, giver: Seq<Portion>)
    requires
        distinct(giver),
        amounts_bounded(comp),
    ensures
        (forall|key: Seq<char>|
            #![trigger amount(giver, key)]
            amount(comp, key) + amount(giver, key) <= MAX_MOLES) <==> (forall|i: int|
            0 <= i < giver.len() ==> amount(comp, (#[trigger] giver[i]).gas.key()) + giver[i].moles
                <= MAX_MOLES),
{
    if forall|i: int|
        0 <= i < giver.len() ==> amount(comp, (#[trigger] giver[i]).gas.key()) + giver[i].moles
            <= MAX_MOLES {
        assert forall|key: Seq<char>| #![trigger amount(giver, key)] amount(comp, key) + amount(
            giver,
            key,
        ) <= MAX_MOLES by {
            lemma_amount_bounded(comp, key);
            if holds(giver, key) {
                let at = slot(giver, key);
                assert(giver[at].gas.key() == key);
            }
        }
    }
    if forall|key: Seq<char>|
        #![trigger amount(giver, key)]
        amount(comp, key) + amount(giver, key) <= MAX_MOLES {
        assert forall|i: int| 0 <= i < giver.len() implies amount(
            comp,
            (#[trigger] giver[i]).gas.key(),
        ) + giver[i].moles <= MAX_MOLES by {
            lemma_slot_is(giver, giver[i].gas.key(), i);
            assert(amount(giver, giver[i].gas.key()) == giver[i].moles);
        }
    }
}

/// A weighted average of two values is no more than a bound on both.
pub proof fn lemma_weighted_average_bound(
    first: int,
    first_weight: int,
    second: int,
    second_weight: int,
    bound: int,
)
    requires
        0 <= first <= bound,
        0 <= second <= bound,
        0 <= first_weight,
        0 <= second_weight,
        first_weight + second_weight > 0,
    ensures
        0 <= first * first_weight + second * second_weight <= bound * (first_weight
            + second_weight),
        0 <= (first * first_weight + second * second_weight) / (first_weight + second_weight)
            <= bound,
{
    let sum = first * first_weight + second * second_weight;
    let weight = first_weight + second_weight;
    assert(0 <= first * first_weight <= bound * first_weight) by (nonlinear_arith)
        requires
            0 <= first <= bound,
            0 <= first_weight,
    ;
    assert(0 <= second * second_weight <= bound * second_weight) by (nonlinear_arith)
        requires
            0 <= second <= bound,
            0 <= second_weight,
    ;
    assert(bound * weight == bound * first_weight + bound * second_weight) by (nonlinear_arith)
        requires
            weight == first_weight + second_weight,
    ;
    assert(0 <= sum / weight <= bound) by (nonlinear_arith)
        requires
            0 <= sum <= bound * weight,
            weight > 0,
    ;
}

/// The part of an amount that is drawn when `numerator` parts in
/// `denominator` are, rounded down; nothing where there are no parts at all.
pub open spec fn share(moles: u64, numerator: nat, denominator: nat) -> nat {
    if denominator == 0 {
        0
    } else {
        ((moles * numerator) / (denominator as int)) as nat
    }
}

/// What is drawn from a composition when `numerator` parts in `denominator`
/// are drawn of every species: the same species, each with its share.
pub open spec fn drawn(comp: Seq<Portion>, numerator: nat, denominator: nat) -> Seq<Portion> {
    Seq::new(
        comp.len(),
        |i: int|
            Portion {
                gas: comp[i].gas,
                moles: share(comp[i].moles, numerator, denominator) as u64,
            },
    )
}

/// What stays of a composition when `numerator` parts in `denominator` are
/// drawn of every species: the same species, each without its share.
pub open spec fn left_over(comp: Seq<Portion>, numerator: nat, denominator: nat) -> Seq<Portion> {
    Seq::new(
        comp.len(),
        |i: int|
            Portion {
                gas: comp[i].gas,
                moles: (comp[i].moles - share(comp[i].moles, numerator, denominator)) as u64,
            },
    )
}

/// A share is no more than the amount it is drawn from, as long as no more
/// parts are drawn than there are.
pub proof fn lemma_share_bound(moles: u64, numerator: nat, denominator: nat)
    requires
        numerator <= denominator,
    ensures
        share(moles, numerator, denominator) <= moles,
{
    if denominator > 0 {
        assert((moles * numerator) / (denominator as int) <= moles) by (nonlinear_arith)
            requires
                0 <= moles,
                0 <= numerator <= denominator,
                denominator > 0,
        ;
    }
}

/// Drawing leaves a valid composition on both sides: each has the species of
/// the composition at the same places, and no amount is larger than it was.
pub proof fn lemma_draw_valid(comp: Seq<Portion>, numerator: nat, denominator: nat)
    requires
        distinct(comp),
        within_limits(comp),
        numerator <= denominator,
    ensures
        distinct(drawn(comp, numerator, denominator)),
        within_limits(drawn(comp, numerator, denominator)),
        distinct(left_over(comp, numerator, denominator)),
        within_limits(left_over(comp, numerator, denominator)),
{
    let taken = drawn(comp, numerator, denominator);
    let rest = left_over(comp, numerator, denominator);
    assert forall|i: int| 0 <= i < comp.len() implies (#[trigger] comp[i]).gas.key()
        == taken[i].gas.key() && comp[i].gas.key() == rest[i].gas.key() by {}
    lemma_same_keys(comp, taken);
    lemma_same_keys(comp, rest);
    assert forall|i: int| 0 <= i < comp.len() implies (#[trigger] taken[i]).moles <= MAX_MOLES
        && taken[i].gas.specific_heat <= MAX_SPECIFIC_HEAT && (#[trigger] rest[i]).moles
        <= MAX_MOLES && rest[i].gas.specific_heat <= MAX_SPECIFIC_HEAT by {
        lemma_share_bound(comp[i].moles, numerator, denominator);
        assert(comp[i].moles <= MAX_MOLES);
    }
}

/// Replacing the amount of one entry changes the total by the difference.
pub proof fn lemma_with_moles_total(comp: Seq<Portion>, at: int, moles: u64)
    requires
        0 <= at < comp.len(),
    ensures
        total_moles_of(with_moles(comp, at, moles)) == total_moles_of(comp) - comp[at].moles
            + moles,
    decreases comp.len(),
{
    let after = with_moles(comp, at, moles);
    if at == comp.len() - 1 {
        assert(after.drop_last() =~= comp.drop_last());
    } else {
        lemma_with_moles_total(comp.drop_last(), at, moles);
        assert(after.drop_last() =~= with_moles(comp.drop_last(), at, moles));
    }
}

/// Giving a species more raises the total by as much.
pub proof fn lemma_with_added_total(comp: Seq<Portion>, gas: GasType, moles: u64)
    requires
        distinct(comp),
        amount(comp, gas.key()) + moles <= u64::MAX,
    ensures
        total_moles_of(with_added(comp, gas, moles)) == total_moles_of(comp) + moles,
{
    let key = gas.key();
    let sum = (amount(comp, key) + moles) as u64;
    if holds(comp, key) {
        let at = slot(comp, key);
        assert(comp[at].gas.key() == key);
        lemma_with_moles_total(comp, at, sum);
    } else {
        assert(comp.push(Portion { gas, moles: sum }).drop_last() =~= comp);
    }
}

/// Merging conserves the total: a composition that has taken up another holds
/// as many millimoles as the two held together.
pub proof fn lemma_absorbed_total(comp: Seq<Portion>, giver: Seq<Portion>)
    requires
        distinct(comp),
        distinct(giver),
        amounts_bounded(comp),
        amounts_bounded(giver),
    ensures
        total_moles_of(absorbed(comp, giver)) == total_moles_of(comp) + total_moles_of(giver),
    decreases giver.len(),
{
    if giver.len() > 0 {
        let front = giver.drop_last();
        let last = giver.last();
        lemma_last_entry(giver);
        assert(amounts_bounded(front)) by {
            assert forall|i: int| 0 <= i < front.len() implies (#[trigger] front[i]).moles
                <= MAX_MOLES by {
                assert(front[i] == giver[i]);
            }
        }
        lemma_absorbed_total(comp, front);
        lemma_absorbed(comp, front);
        let before = absorbed(comp, front);
        let key = last.gas.key();
        lemma_amount_bounded(comp, key);
        assert(last == giver[giver.len() - 1]);
        assert(amount(before, key) == amount(comp, key) + amount(front, key));
        lemma_with_added_total(before, last.gas, last.moles);
    }
}

/// Wherever the two compositions hold one species, they give it one
/// specific heat.
pub open spec fn matching_heats(comp: Seq<Portion>, giver: Seq<Portion>) -> bool {
    forall|i: int, j: int|
        #![trigger comp[i], giver[j]]
        0 <= i < comp.len() && 0 <= j < giver.len() && comp[i].gas.key() == giver[j].gas.key()
            ==> comp[i].gas.specific_heat == giver[j].gas.specific_heat
}

/// Replacing the amount of one entry changes the heat capacity by the
/// difference, times the specific heat of the entry.
pub proof fn lemma_with_moles_heat(comp: Seq<Portion>, at: int, moles: u64)
    requires
        0 <= at < comp.len(),
    ensures
        heat_capacity_of(with_moles(comp, at, moles)) == heat_capacity_of(comp)
            - comp[at].gas.specific_heat * comp[at].moles + comp[at].gas.specific_heat * moles,
    decreases comp.len(),
{
    let after = with_moles(comp, at, moles);
    if at == comp.len() - 1 {
        assert(after.drop_last() =~= comp.drop_last());
    } else {
        lemma_with_moles_heat(comp.drop_last(), at, moles);
        assert(after.drop_last() =~= with_moles(comp.drop_last(), at, moles));
    }
}

/// A composition that has taken up another still has its own entries first,
/// each with the descriptor that it had.
pub proof fn lemma_absorbed_keeps_species(comp: Seq<Portion>, giver: Seq<Portion>)
    ensures
        absorbed(comp, giver).len() >= comp.len(),
        forall|i: int|
            0 <= i < comp.len() ==> (#[trigger] absorbed(comp, giver)[i]).gas == comp[i].gas,
    decreases giver.len(),
{
    if giver.len() > 0 {
        lemma_absorbed_keeps_species(comp, giver.drop_last());
        let before = absorbed(comp, giver.drop_last());
        let after = absorbed(comp, giver);
        assert forall|i: int| 0 <= i < comp.len() implies (#[trigger] after[i]).gas
            == comp[i].gas by {
            assert(before[i].gas == comp[i].gas);
        }
    }
}

/// Merging adds up the heat capacities, as long as the two compositions give
/// every species that both hold one specific heat.
pub proof fn lemma_absorbed_heat(comp: Seq<Portion>, giver: Seq<Portion>)
    requires
        distinct(comp),
        distinct(giver),
        amounts_bounded(comp),
        amounts_bounded(giver),
        matching_heats(comp, giver),
    ensures
        heat_capacity_of(absorbed(comp, giver)) == heat_capacity_of(comp) + heat_capacity_of(
            giver,
        ),
    decreases giver.len(),
{
    if giver.len() > 0 {
        let front = giver.drop_last();
        let last = giver.last();
        lemma_last_entry(giver);
        assert(amounts_bounded(front)) by {
            assert forall|i: int| 0 <= i < front.len() implies (#[trigger] front[i]).moles
                <= MAX_MOLES by {
                assert(front[i] == giver[i]);
            }
        }
        assert(matching_heats(comp, front)) by {
            assert forall|i: int, j: int|
                #![trigger comp[i], front[j]]
                0 <= i < comp.len() && 0 <= j < front.len() && comp[i].gas.key()
                    == front[j].gas.key() implies comp[i].gas.specific_heat
                == front[j].gas.specific_heat by {
                assert(front[j] == giver[j]);
            }
        }
        lemma_absorbed_heat(comp, front);
        lemma_absorbed(comp, front);
        lemma_absorbed_keeps_species(comp, front);
        let before = absorbed(comp, front);
        let key = last.gas.key();
        lemma_amount_bounded(comp, key);
        assert(last == giver[giver.len() - 1]);
        assert(amount(before, key) == amount(comp, key) + amount(front, key));
        let sum = (amount(before, key) + last.moles) as u64;
        if holds(before, key) {
            let own = slot(comp, key);
            assert(comp[own].gas.key() == key);
            assert(before[own].gas == comp[own].gas);
            lemma_slot_is(before, key, own);
            assert(comp[own].gas.specific_heat == last.gas.specific_heat);
            lemma_with_moles_heat(before, own, sum);
            assert(before[own].gas.specific_heat * sum == before[own].gas.specific_heat
                * before[own].moles + before[own].gas.specific_heat * last.moles)
                by (nonlinear_arith)
                requires
                    sum == before[own].moles + last.moles,
            ;
        } else {
            assert(before.push(Portion { gas: last.gas, moles: sum }).drop_last() =~= before);
        }
    }
}

/// Splitting conserves the total, and draws no more than was asked for: what
/// is drawn and what is left hold together what there was, and what is drawn
/// is at most `numerator` parts in `denominator` of it.
pub proof fn lemma_draw_totals(comp: Seq<Portion>, numerator: nat, denominator: nat)
    requires
        numerator <= denominator,
    ensures
        total_moles_of(drawn(comp, numerator, denominator)) + total_moles_of(
            left_over(comp, numerator, denominator),
        ) == total_moles_of(comp),
        total_moles_of(drawn(comp, numerator, denominator)) * denominator <= total_moles_of(comp)
            * numerator,
    decreases comp.len(),
{
    if comp.len() > 0 {
        let front = comp.drop_last();
        let last = comp.last();
        lemma_draw_totals(front, numerator, denominator);
        assert(drawn(comp, numerator, denominator).drop_last() =~= drawn(
            front,
            numerator,
            denominator,
        ));
        assert(left_over(comp, numerator, denominator).drop_last() =~= left_over(
            front,
            numerator,
            denominator,
        ));
        lemma_share_bound(last.moles, numerator, denominator);
        let part = share(last.moles, numerator, denominator);
        assert(part * denominator <= last.moles * numerator) by (nonlinear_arith)
            requires
                part == (if denominator == 0 {
                    0
                } else {
                    (last.moles * numerator) / (denominator as int)
                }),
                last.moles >= 0,
                numerator >= 0,
        ;
        let before = total_moles_of(drawn(front, numerator, denominator));
        assert(drawn(comp, numerator, denominator).last().moles == part);
        assert(total_moles_of(drawn(comp, numerator, denominator)) == before + part);
        assert(total_moles_of(comp) == total_moles_of(front) + last.moles);
        assert((before + part) * denominator == before * denominator + part * denominator)
            by (nonlinear_arith);
        assert((total_moles_of(front) + last.moles) * numerator == total_moles_of(front)
            * numerator + last.moles * numerator) by (nonlinear_arith);
    } else {
        assert(total_moles_of(drawn(comp, numerator, denominator)) == 0);
        assert(total_moles_of(comp) == 0);
    }
}

/// The thousandths that a ratio removes: the ratio, but no more than a thousand.
pub open spec fn ratio_parts(ratio: i64) -> nat {
    if ratio <= 0 {
        0
    } else if ratio > SCALE {
        SCALE as nat
    } else {
        ratio as nat
    }
}

} // verus!
