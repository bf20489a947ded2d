//! What holds of every turn of the conversation, and of turns in a row.

use super::{
    at_rest, handled, price_range, Command, InboundView, OutcomeView, StateView,
};
use crate::flats::{city_names, district_names, position, CityView};
use vstd::prelude::*;

verus! {

/// How far down the funnel a state is.
pub open spec fn depth(state: StateView) -> nat {
    match state {
        StateView::Start => 0,
        StateView::ReceiveCityName => 1,
        StateView::ReceiveDistrictName { city_name } => 2,
        StateView::ReceiveDealType { city_name, district_name } => 3,
        StateView::ReceivePriceRange { city_name, district_name, deal_type } => 4,
        StateView::Done => 5,
    }
}

/// Whether the catalog holds a district of this name in a city of this
/// name, and, where `deal_type` is given, the first such district of the
/// first such city offers it.
pub open spec fn on_offer(
    cities: Seq<CityView>,
    city_name: Seq<char>,
    district_name: Seq<char>,
    deal_type: Option<Seq<char>>,
) -> bool {
    match position(city_names(cities), city_name) {
        None => false,
        Some(at) => match position(district_names(cities[at].districts), district_name) {
            None => false,
            Some(d) => match deal_type {
                Some(deal_type) => cities[at].districts[d].deal_types.contains(deal_type),
                None => true,
            },
        },
    }
}

/// Whether `text` answers what `state` awaits: it names a city of the
/// catalog, a district of the city chosen, a deal type of the district
/// chosen, or a price range in order while the catalog still holds what was
/// chosen.
pub open spec fn answers(state: StateView, text: Option<Seq<char>>, cities: Seq<CityView>) -> bool {
    match text {
        None => false,
        Some(answer) => match state {
            StateView::ReceiveCityName => position(city_names(cities), answer) is Some,
            StateView::ReceiveDistrictName { city_name } => on_offer(cities, city_name, answer, None),
            StateView::ReceiveDealType { city_name, district_name } => on_offer(
                cities,
                city_name,
                district_name,
                Some(answer),
            ),
            StateView::ReceivePriceRange { city_name, district_name, deal_type } => {
                &&& price_range(answer) matches Some(range)
                &&& range.0 <= range.1
                &&& on_offer(cities, city_name, district_name, Some(deal_type))
            },
            _ => false,
        },
    }
}

/// Whether `inbound` is the command `cancel`.
pub open spec fn cancels(inbound: InboundView) -> bool {
    inbound matches InboundView::Command { command: Command::Cancel, text }
}

/// `cancel` returns the conversation to `Start` from anywhere, and starts
/// no search.
pub proof fn lemma_cancel_resets(state: StateView, inbound: InboundView, cities: Seq<CityView>)
    requires
        cancels(inbound),
    ensures
        handled(state, inbound, cities).state == StateView::Start,
        handled(state, inbound, cities).search is None,
{
}

/// What does not answer what is awaited never advances the conversation:
/// it is turned down, the state stays as it is, and no search is started.
pub proof fn lemma_invalid_answer_stays(
    state: StateView,
    inbound: InboundView,
    cities: Seq<CityView>,
)
    requires
        !at_rest(state),
        !cancels(inbound),
        !answers(state, inbound.text(), cities),
    ensures
        handled(state, inbound, cities).state == state,
        handled(state, inbound, cities).search is None,
        handled(state, inbound, cities).rejected is Some,
{
}

/// What answers what is awaited takes the conversation one step down the
/// funnel, and keeps what was chosen before.
pub proof fn lemma_valid_answer_advances(
    state: StateView,
    inbound: InboundView,
    cities: Seq<CityView>,
)
    requires
        !at_rest(state),
        !cancels(inbound),
        answers(state, inbound.text(), cities),
    ensures
        depth(handled(state, inbound, cities).state) == depth(state) + 1,
        handled(state, inbound, cities).rejected is None,
        match (state, handled(state, inbound, cities).state) {
            (StateView::ReceiveCityName, StateView::ReceiveDistrictName { city_name }) => Some(
                city_name,
            ) == inbound.text(),
            (
                StateView::ReceiveDistrictName { city_name: city },
                StateView::ReceiveDealType { city_name, district_name },
            ) => city_name == city && Some(district_name) == inbound.text(),
            (
                StateView::ReceiveDealType { city_name: city, district_name: district },
                StateView::ReceivePriceRange { city_name, district_name, deal_type },
            ) => city_name == city && district_name == district && Some(deal_type)
                == inbound.text(),
            (
                StateView::ReceivePriceRange { city_name, district_name, deal_type },
                StateView::Done,
            ) => true,
            _ => false,
        },
{
}

/// The name under which the catalog holds a city is taken as an answer
/// while a city is awaited.
pub proof fn lemma_stored_city_accepted(cities: Seq<CityView>, at: int)
    requires
        0 <= at < cities.len(),
    ensures
        handled(StateView::ReceiveCityName, InboundView::Text(cities[at].name), cities).state
            == (StateView::ReceiveDistrictName { city_name: cities[at].name }),
{
    crate::flats::lemma_position(city_names(cities), cities[at].name);
    assert(city_names(cities)[at] == cities[at].name);
}

/// At rest only `start` moves the conversation, into the funnel, and only a
/// message without text is turned down.
pub proof fn lemma_at_rest(state: StateView, inbound: InboundView, cities: Seq<CityView>)
    requires
        at_rest(state),
        !cancels(inbound),
    ensures
        handled(state, inbound, cities).search is None,
        handled(state, inbound, cities).rejected is Some <==> inbound is Other,
        inbound matches InboundView::Command { command: Command::Start, text } ==> handled(
            state,
            inbound,
            cities,
        ).state == StateView::ReceiveCityName,
        !(inbound matches InboundView::Command { command: Command::Start, text }) ==> handled(
            state,
            inbound,
            cities,
        ).state == state,
{
}

/// A search is started exactly by the turn that completes the funnel, and
/// it is the search for what was chosen: its least price is not above its
/// greatest.
pub proof fn lemma_search(state: StateView, inbound: InboundView, cities: Seq<CityView>)
    ensures
        handled(state, inbound, cities).search is Some <==> (state is ReceivePriceRange
            && !cancels(inbound) && answers(state, inbound.text(), cities)),
        handled(state, inbound, cities).search is Some ==> handled(state, inbound, cities).state
            == StateView::Done,
        handled(state, inbound, cities).search matches Some(criteria) ==> {
            &&& state matches StateView::ReceivePriceRange { city_name, district_name, deal_type }
            &&& criteria.city == city_name
            &&& criteria.district == district_name
            &&& criteria.deal_type == deal_type
            &&& criteria.price_from <= criteria.price_to
            &&& inbound.text() matches Some(answer)
            &&& price_range(answer) == Some((criteria.price_from, criteria.price_to))
        },
{
}

/// Where the conversation stands after the turns for `inbounds`, taken in
/// order.
pub open spec fn talked(state: StateView, inbounds: Seq<InboundView>, cities: Seq<CityView>) -> StateView
    decreases inbounds.len(),
{
    if inbounds.len() == 0 {
        state
    } else {
        handled(talked(state, inbounds.drop_last(), cities), inbounds.last(), cities).state
    }
}

/// Turns compose in order: two runs of messages, one after the other, come
/// to what the messages come to in one run.
pub proof fn lemma_talked_in_order(
    state: StateView,
    first: Seq<InboundView>,
    then: Seq<InboundView>,
    cities: Seq<CityView>,
)
    ensures
        talked(state, first + then, cities) == talked(talked(state, first, cities), then, cities),
    decreases then.len(),
{
    if then.len() == 0 {
        assert(first + then =~= first);
    } else {
        lemma_talked_in_order(state, first, then.drop_last(), cities);
        assert((first + then).drop_last() =~= first + then.drop_last());
        assert((first + then).last() == then.last());
    }
}

} // verus!
