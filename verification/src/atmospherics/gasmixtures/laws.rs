use crate::atmospherics::gasmixtures::composition::{
    amount, distinct, drawn, heat_capacity_of, holds, left_over, lemma_absorbed_heat,
    lemma_same_keys, lemma_share_bound, lemma_weighted_average_bound, lemma_with_entry,
    lemma_zipped_distinct, lemma_zipped_round_trip, matching_heats, present_moles, ratio_parts,
    share, slot, total_moles_of, zipped, Portion,
};
use crate::atmospherics::gasmixtures::gasmixture::MixtureState;
use crate::atmospherics::gasmixtures::gastype::GasType;
use crate::constants::num::{MAX_TEMPERATURE, MINIMUM_TEMP_DELTA_TO_CONSIDER, SCALE};
use vstd::prelude::*;
use vstd::seq_lib::{to_multiset_contains, to_multiset_len, to_multiset_remove};

verus! {

/// A mixture made from two lists gives back what went in: it reports the
/// amount of a pair for the species of the pair, as long as the last pair
/// that names the species has the same amount. An amount of zero is reported
/// as the species not being there.
pub proof fn lemma_from_vecs_round_trip(
    gases: Seq<&GasType>,
    moles: Seq<u64>,
    i: int,
    last: int,
)
    requires
        gases.len() == moles.len(),
        0 <= i <= last < gases.len(),
        gases[last].key() == gases[i].key(),
        moles[last] == moles[i],
        forall|j: int| last < j < gases.len() ==> (#[trigger] gases[j]).key() != gases[i].key(),
    ensures
        present_moles(zipped(gases, moles), gases[i].key()) == (if moles[i] > 0 {
            Some(moles[i])
        } else {
            None
        }),
{
    lemma_zipped_round_trip(gases, moles, last);
}

/// A mixture made from two lists has no more species than the lists have
/// pairs.
pub proof fn lemma_zipped_len(gases: Seq<&GasType>, moles: Seq<u64>)
    ensures
        zipped(gases, moles).len() <= gases.len(),
    decreases gases.len(),
{
    if gases.len() != 0 && gases.len() == moles.len() {
        lemma_zipped_len(gases.drop_last(), moles.drop_last());
        lemma_zipped_distinct(gases.drop_last(), moles.drop_last());
        lemma_with_entry(
            zipped(gases.drop_last(), moles.drop_last()),
            *gases.last(),
            moles.last(),
        );
    }
}

/// No entry holds more than all entries together.
pub proof fn lemma_entry_within_total(comp: Seq<Portion>, at: int)
    requires
        0 <= at < comp.len(),
    ensures
        comp[at].moles <= total_moles_of(comp),
    decreases comp.len(),
{
    if at < comp.len() - 1 {
        lemma_entry_within_total(comp.drop_last(), at);
    }
}

/// A share of all parts is the whole amount.
pub proof fn lemma_share_of_all(moles: u64, parts: nat)
    requires
        parts > 0,
    ensures
        share(moles, parts, parts) == moles,
{
    assert((moles * parts) / (parts as int) == moles) by (nonlinear_arith)
        requires
            parts > 0,
    ;
}

/// A share is the exact part rounded down: it falls short of it by less than
/// one unit.
pub proof fn lemma_share_rounding(moles: u64, numerator: nat, denominator: nat)
    requires
        denominator > 0,
    ensures
        moles * numerator - denominator < denominator * share(moles, numerator, denominator)
            <= moles * numerator,
{
    let product = moles * numerator;
    assert(product - denominator < denominator * (product / (denominator as int)) <= product)
        by (nonlinear_arith)
        requires
            product >= 0,
            denominator > 0,
    ;
}

/// Splitting conserves every species: what is drawn and what is left make up
/// what there was, and both sides hold the species that were held before.
pub proof fn lemma_draw_conserves(
    comp: Seq<Portion>,
    numerator: nat,
    denominator: nat,
    key: Seq<char>,
)
    requires
        distinct(comp),
        numerator <= denominator,
    ensures
        holds(drawn(comp, numerator, denominator), key) == holds(comp, key),
        holds(left_over(comp, numerator, denominator), key) == holds(comp, key),
        amount(drawn(comp, numerator, denominator), key) + amount(
            left_over(comp, numerator, denominator),
            key,
        ) == amount(comp, key),
{
    let taken = drawn(comp, numerator, denominator);
    let rest = left_over(comp, numerator, denominator);
    assert forall|i: int| 0 <= i < comp.len() implies (#[trigger] comp[i]).gas.key()
        == taken[i].gas.key() && comp[i].gas.key() == rest[i].gas.key() by {}
    lemma_same_keys(comp, taken);
    lemma_same_keys(comp, rest);
    assert forall|i: int| 0 <= i < comp.len() implies (#[trigger] taken[i]).gas.key()
        == comp[i].gas.key() && (#[trigger] rest[i]).gas.key() == comp[i].gas.key() by {}
    lemma_same_keys(taken, comp);
    lemma_same_keys(rest, comp);
    if holds(comp, key) {
        let at = slot(comp, key);
        assert(comp[at].gas.key() == key);
        assert(slot(taken, key) == at);
        assert(slot(rest, key) == at);
        lemma_share_bound(comp[at].moles, numerator, denominator);
    }
}

/// Removing all there is, or more, takes every amount whole and leaves none:
/// the removed mixture has the composition that there was, and nothing of
/// any species stays behind.
pub proof fn lemma_remove_all(state: MixtureState, wanted: i64)
    requires
        wanted >= state.total_moles(),
    ensures
        drawn(state.composition, state.removable(wanted), state.total_moles())
            == state.composition,
        forall|i: int|
            0 <= i < state.composition.len() ==> (#[trigger] left_over(
                state.composition,
                state.removable(wanted),
                state.total_moles(),
            )[i]).moles == 0,
{
    let comp = state.composition;
    let total = state.total_moles();
    assert(state.removable(wanted) == total);
    let taken = drawn(comp, total, total);
    let rest = left_over(comp, total, total);
    assert forall|i: int| 0 <= i < comp.len() implies (#[trigger] taken[i]) == comp[i]
        && rest[i].moles == 0 by {
        lemma_entry_within_total(comp, i);
        if total > 0 {
            lemma_share_of_all(comp[i].moles, total);
        }
    }
    assert(taken =~= comp);
}

/// Removing a whole ratio is removing all there is: a ratio of a thousand
/// thousandths or more draws what an amount of the total or more draws, and
/// leaves what that leaves.
pub proof fn lemma_remove_ratio_whole(state: MixtureState, ratio: i64, wanted: i64)
    requires
        ratio >= SCALE,
        wanted >= state.total_moles(),
    ensures
        drawn(state.composition, ratio_parts(ratio), SCALE as nat) == drawn(
            state.composition,
            state.removable(wanted),
            state.total_moles(),
        ),
        left_over(state.composition, ratio_parts(ratio), SCALE as nat) == left_over(
            state.composition,
            state.removable(wanted),
            state.total_moles(),
        ),
{
    let comp = state.composition;
    let total = state.total_moles();
    lemma_remove_all(state, wanted);
    let by_ratio = drawn(comp, ratio_parts(ratio), SCALE as nat);
    let by_amount = drawn(comp, total, total);
    let rest_by_ratio = left_over(comp, ratio_parts(ratio), SCALE as nat);
    let rest_by_amount = left_over(comp, total, total);
    assert forall|i: int| 0 <= i < comp.len() implies (#[trigger] by_ratio[i]) == by_amount[i]
        && (#[trigger] rest_by_ratio[i]) == rest_by_amount[i] by {
        lemma_share_of_all(comp[i].moles, SCALE as nat);
        assert(by_amount[i] == comp[i]);
        assert(rest_by_amount[i].moles == 0);
    }
    assert(by_ratio =~= by_amount);
    assert(rest_by_ratio =~= rest_by_amount);
}

/// Drawing keeps the proportions of the species, on both sides, wherever the
/// shares come out even: of two species whose shares need no rounding, the
/// drawn amounts stand to each other as the amounts before do, and so do
/// the amounts that are left.
pub proof fn lemma_draw_keeps_ratios(
    comp: Seq<Portion>,
    numerator: nat,
    denominator: nat,
    i: int,
    j: int,
)
    requires
        0 < numerator <= denominator,
        0 <= i < comp.len(),
        0 <= j < comp.len(),
        (comp[i].moles * numerator) % (denominator as int) == 0,
        (comp[j].moles * numerator) % (denominator as int) == 0,
    ensures
        drawn(comp, numerator, denominator)[i].moles * comp[j].moles == drawn(
            comp,
            numerator,
            denominator,
        )[j].moles * comp[i].moles,
        left_over(comp, numerator, denominator)[i].moles * comp[j].moles == left_over(
            comp,
            numerator,
            denominator,
        )[j].moles * comp[i].moles,
{
    let first = comp[i].moles as int;
    let second = comp[j].moles as int;
    let first_share = share(comp[i].moles, numerator, denominator) as int;
    let second_share = share(comp[j].moles, numerator, denominator) as int;
    lemma_share_bound(comp[i].moles, numerator, denominator);
    lemma_share_bound(comp[j].moles, numerator, denominator);
    assert(denominator * first_share == first * numerator) by (nonlinear_arith)
        requires
            denominator > 0,
            first_share == (first * numerator) / (denominator as int),
            (first * numerator) % (denominator as int) == 0,
    ;
    assert(denominator * second_share == second * numerator) by (nonlinear_arith)
        requires
            denominator > 0,
            second_share == (second * numerator) / (denominator as int),
            (second * numerator) % (denominator as int) == 0,
    ;
    assert(first_share * second == second_share * first) by (nonlinear_arith)
        requires
            denominator > 0,
            denominator * first_share == first * numerator,
            denominator * second_share == second * numerator,
    ;
    assert((first - first_share) * second == (second - second_share) * first)
        by (nonlinear_arith)
        requires
            first_share * second == second_share * first,
    ;
}

/// Drawing keeps the proportions of the species up to rounding, on both
/// sides: of any two species, the drawn amounts stand to each other as the
/// amounts before do, but for less than one unit of either, and so do the
/// amounts that are left.
pub proof fn lemma_draw_nearly_keeps_ratios(
    comp: Seq<Portion>,
    numerator: nat,
    denominator: nat,
    i: int,
    j: int,
)
    requires
        0 < denominator,
        numerator <= denominator,
        0 <= i < comp.len(),
        0 <= j < comp.len(),
    ensures
        -comp[j].moles <= drawn(comp, numerator, denominator)[i].moles * comp[j].moles - drawn(
            comp,
            numerator,
            denominator,
        )[j].moles * comp[i].moles <= comp[i].moles,
        -comp[i].moles <= left_over(comp, numerator, denominator)[i].moles * comp[j].moles
            - left_over(comp, numerator, denominator)[j].moles * comp[i].moles <= comp[j].moles,
{
    let first = comp[i].moles as int;
    let second = comp[j].moles as int;
    let first_share = share(comp[i].moles, numerator, denominator) as int;
    let second_share = share(comp[j].moles, numerator, denominator) as int;
    let parts = denominator as int;
    lemma_share_bound(comp[i].moles, numerator, denominator);
    lemma_share_bound(comp[j].moles, numerator, denominator);
    lemma_share_rounding(comp[i].moles, numerator, denominator);
    lemma_share_rounding(comp[j].moles, numerator, denominator);
    assert(parts * (first_share * second) <= first * numerator * second) by (nonlinear_arith)
        requires
            parts * first_share <= first * numerator,
            second >= 0,
    ;
    assert(parts * (second_share * first) <= second * numerator * first) by (nonlinear_arith)
        requires
            parts * second_share <= second * numerator,
            first >= 0,
    ;
    assert(parts * (second_share * first) >= second * numerator * first - parts * first)
        by (nonlinear_arith)
        requires
            second * numerator - parts < parts * second_share,
            first >= 0,
    ;
    assert(parts * (first_share * second) >= first * numerator * second - parts * second)
        by (nonlinear_arith)
        requires
            first * numerator - parts < parts * first_share,
            second >= 0,
    ;
    assert(first * numerator * second == second * numerator * first) by (nonlinear_arith);
    let gap = first_share * second - second_share * first;
    assert(-second <= gap <= first) by (nonlinear_arith)
        requires
            parts > 0,
            parts * (first_share * second) - parts * (second_share * first) <= parts * first,
            parts * (second_share * first) - parts * (first_share * second) <= parts * second,
            gap == first_share * second - second_share * first,
    ;
    assert((first - first_share) * second - (second - second_share) * first == -gap)
        by (nonlinear_arith)
        requires
            gap == first_share * second - second_share * first,
    ;
}

/// A ratio between nothing and the whole keeps the proportions of the
/// species in what it removes and in what remains: up to rounding for any
/// two species, and exactly for two whose shares come out even.
pub proof fn lemma_remove_ratio_keeps_ratios(comp: Seq<Portion>, ratio: i64, i: int, j: int)
    requires
        0 < ratio <= SCALE,
        0 <= i < comp.len(),
        0 <= j < comp.len(),
    ensures
        -comp[j].moles <= drawn(comp, ratio_parts(ratio), SCALE as nat)[i].moles * comp[j].moles
            - drawn(comp, ratio_parts(ratio), SCALE as nat)[j].moles * comp[i].moles
            <= comp[i].moles,
        -comp[i].moles <= left_over(comp, ratio_parts(ratio), SCALE as nat)[i].moles
            * comp[j].moles - left_over(comp, ratio_parts(ratio), SCALE as nat)[j].moles
            * comp[i].moles <= comp[j].moles,
        (comp[i].moles * ratio) % (SCALE as int) == 0 && (comp[j].moles * ratio) % (SCALE as int)
            == 0 ==> drawn(comp, ratio_parts(ratio), SCALE as nat)[i].moles * comp[j].moles
            == drawn(comp, ratio_parts(ratio), SCALE as nat)[j].moles * comp[i].moles && left_over(
            comp,
            ratio_parts(ratio),
            SCALE as nat,
        )[i].moles * comp[j].moles == left_over(comp, ratio_parts(ratio), SCALE as nat)[j].moles
            * comp[i].moles,
{
    lemma_draw_nearly_keeps_ratios(comp, ratio_parts(ratio), SCALE as nat, i, j);
    if (comp[i].moles * ratio) % (SCALE as int) == 0 && (comp[j].moles * ratio) % (SCALE as int)
        == 0 {
        lemma_draw_keeps_ratios(comp, ratio_parts(ratio), SCALE as nat, i, j);
    }
}

/// Without one of its entries a composition has that much less in total, and
/// that much less heat capacity.
pub proof fn lemma_aggregates_without(comp: Seq<Portion>, at: int)
    requires
        0 <= at < comp.len(),
    ensures
        total_moles_of(comp.remove(at)) + comp[at].moles == total_moles_of(comp),
        heat_capacity_of(comp.remove(at)) + comp[at].gas.specific_heat * comp[at].moles
            == heat_capacity_of(comp),
    decreases comp.len(),
{
    if at == comp.len() - 1 {
        assert(comp.remove(at) =~= comp.drop_last());
    } else {
        lemma_aggregates_without(comp.drop_last(), at);
        assert(comp.remove(at).drop_last() =~= comp.drop_last().remove(at));
        assert(comp.remove(at).last() == comp.last());
    }
}

/// The aggregates do not depend on the order of the entries: two
/// compositions with the same entries, in whatever order, have the same
/// total and the same heat capacity.
pub proof fn lemma_aggregates_ignore_order(first: Seq<Portion>, second: Seq<Portion>)
    requires
        first.to_multiset() == second.to_multiset(),
    ensures
        total_moles_of(first) == total_moles_of(second),
        heat_capacity_of(first) == heat_capacity_of(second),
    decreases first.len(),
{
    to_multiset_len(first);
    to_multiset_len(second);
    if first.len() > 0 {
        let last = first.last();
        assert(first.contains(last)) by {
            assert(first[first.len() - 1] == last);
        }
        to_multiset_contains(first, last);
        to_multiset_contains(second, last);
        let at = choose|at: int| 0 <= at < second.len() && second[at] == last;
        to_multiset_remove(first, first.len() - 1);
        to_multiset_remove(second, at);
        assert(first.remove(first.len() - 1) =~= first.drop_last());
        lemma_aggregates_ignore_order(first.drop_last(), second.remove(at));
        lemma_aggregates_without(second, at);
    }
}

/// Two mixtures of the same temperature and volume whose compositions have
/// the same entries, in whatever order, have the same total, heat capacity,
/// thermal energy and pressure.
pub proof fn lemma_queries_ignore_order(first: MixtureState, second: MixtureState)
    requires
        first.composition.to_multiset() == second.composition.to_multiset(),
        first.temperature == second.temperature,
        first.volume == second.volume,
    ensures
        first.total_moles() == second.total_moles(),
        first.heat_capacity() == second.heat_capacity(),
        first.thermal_energy() == second.thermal_energy(),
        first.pressure() == second.pressure(),
{
    lemma_aggregates_ignore_order(first.composition, second.composition);
}

/// Merging conserves the thermal energy up to rounding, as long as the two
/// mixtures give every species that both hold one specific heat and their
/// temperatures differ enough to be averaged: the merged mixture has the
/// energy of the two together, less what the rounding of its temperature
/// takes, which is less than one thousandth of a kelvin.
pub proof fn lemma_merge_conserves_energy(own: MixtureState, giver: MixtureState)
    requires
        own.wf(),
        giver.wf(),
        matching_heats(own.composition, giver.composition),
        own.differs_in_temperature(giver),
    ensures
        own.merged_with(giver).heat_capacity() == own.heat_capacity() + giver.heat_capacity(),
        own.merged_with(giver).thermal_energy() <= own.thermal_energy() + giver.thermal_energy(),
        own.heat_capacity() + giver.heat_capacity() > 0 ==> own.thermal_energy()
            + giver.thermal_energy() < own.merged_with(giver).thermal_energy() + own.merged_with(
            giver,
        ).heat_capacity(),
{
    lemma_absorbed_heat(own.composition, giver.composition);
    let capacity = (own.heat_capacity() + giver.heat_capacity()) as int;
    let energy = (giver.temperature * giver.heat_capacity() + own.temperature
        * own.heat_capacity()) as int;
    assert(own.thermal_energy() + giver.thermal_energy() == energy) by (nonlinear_arith)
        requires
            own.thermal_energy() == own.heat_capacity() * own.temperature,
            giver.thermal_energy() == giver.heat_capacity() * giver.temperature,
            energy == giver.temperature * giver.heat_capacity() + own.temperature
                * own.heat_capacity(),
    ;
    if capacity > 0 {
        lemma_weighted_average_bound(
            giver.temperature as int,
            giver.heat_capacity() as int,
            own.temperature as int,
            own.heat_capacity() as int,
            MAX_TEMPERATURE as int,
        );
        let merged = energy / capacity;
        assert(own.merged_with(giver).temperature == merged);
        assert(capacity * merged <= energy < capacity * merged + capacity) by (nonlinear_arith)
            requires
                capacity > 0,
                energy >= 0,
                merged == energy / capacity,
        ;
    } else {
        assert(own.merged_with(giver).thermal_energy() == 0) by (nonlinear_arith)
            requires
                own.merged_with(giver).thermal_energy() == own.merged_with(giver).heat_capacity()
                    * own.merged_with(giver).temperature,
                own.merged_with(giver).heat_capacity() == 0,
        ;
    }
}

/// Where the temperatures of two mixtures are too close to be averaged, a
/// merge keeps the temperature of the taker, and the thermal energy of the
/// merged mixture differs from that of the two together by no more than the
/// heat capacity of the giver times the least difference that counts.
pub proof fn lemma_merge_of_close_temperatures(own: MixtureState, giver: MixtureState)
    requires
        own.wf(),
        giver.wf(),
        matching_heats(own.composition, giver.composition),
        !own.differs_in_temperature(giver),
    ensures
        own.merged_with(giver).temperature == own.temperature,
        own.merged_with(giver).thermal_energy() - (own.thermal_energy() + giver.thermal_energy())
            <= giver.heat_capacity() * MINIMUM_TEMP_DELTA_TO_CONSIDER,
        (own.thermal_energy() + giver.thermal_energy()) - own.merged_with(giver).thermal_energy()
            <= giver.heat_capacity() * MINIMUM_TEMP_DELTA_TO_CONSIDER,
{
    lemma_absorbed_heat(own.composition, giver.composition);
    let own_capacity = own.heat_capacity() as int;
    let giver_capacity = giver.heat_capacity() as int;
    let own_temperature = own.temperature as int;
    let giver_temperature = giver.temperature as int;
    let least = MINIMUM_TEMP_DELTA_TO_CONSIDER as int;
    assert((own_capacity + giver_capacity) * own_temperature - (own_capacity * own_temperature
        + giver_capacity * giver_temperature) == giver_capacity * (own_temperature
        - giver_temperature)) by (nonlinear_arith);
    assert(giver_capacity * (own_temperature - giver_temperature) <= giver_capacity * least
        && giver_capacity * (giver_temperature - own_temperature) <= giver_capacity * least)
        by (nonlinear_arith)
        requires
            giver_capacity >= 0,
            own_temperature - giver_temperature <= least,
            giver_temperature - own_temperature <= least,
    ;
    assert(giver_capacity * (giver_temperature - own_temperature) == -(giver_capacity * (
    own_temperature - giver_temperature))) by (nonlinear_arith);
}

} // verus!
