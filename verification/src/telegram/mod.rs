//! The conversation that leads a user from a city to a district, a deal
//! type and a price range, and so to a search.
//!
//! The rule is a function: from the state of a conversation, what came in
//! and the catalog, to the next state, the one message to send and, where
//! the selection is complete, the search to run.

pub mod funnel;

use crate::flats::listing::FetchError;
use crate::flats::{
    city_names, city_views, district_names, district_views, find_city, find_district, index_view,
    position, City, CityView, CriteriaView, Flat, FlatCriteria,
};
use crate::text::{
    chars_of, find, first_occurrence, parse_u32, parsed_u32, sort_texts, sorted_texts, texts,
    trim_bounds, trimmed,
};
use vstd::prelude::*;

verus! {

/// What is sent where a message holds no text.
pub const PLAIN_TEXT_EXPECTED: &'static str = "Message should be a plain text";

/// What stands before the list of cities.
pub const CITY_PROMPT: &'static str = "Let's start! Please select a city: \n\n";

/// What stands before the list of a city's districts.
pub const DISTRICT_PROMPT: &'static str = "Please select a district: \n\n";

/// What stands before the list of a district's deal types.
pub const DEAL_TYPE_PROMPT: &'static str = "Please select a deal type: \n\n";

/// What asks for a price range.
pub const PRICE_PROMPT: &'static str =
    "Please enter the price range using the following format: 'min_price-max_price'";

/// What is sent where the least price is above the greatest.
pub const PRICE_ORDER: &'static str =
    "The minimum price must not be above the maximum price. Please enter the price range using the following format: 'min_price-max_price'";

/// What stands before a city's name that the catalog lacks.
pub const CITY_INVALID_OPEN: &'static str = "City '";

/// What stands after a city's name that the catalog lacks.
pub const CITY_INVALID_CLOSE: &'static str = "' name is invalid. Please try again!";

/// What is sent where the catalog does not hold the city chosen.
pub const CITY_NOT_FOUND: &'static str = "City not found";

/// What is sent where the city does not hold the district.
pub const DISTRICT_NOT_FOUND: &'static str = "District not found";

/// What is sent where the district does not offer the deal type.
pub const DEAL_TYPE_NOT_FOUND: &'static str = "Deal type not found";

/// What is sent where a deal type comes while none is awaited.
pub const UNEXPECTED_STATE: &'static str = "Unexpected state.";

/// What is sent when a selection is complete.
pub const SEARCHING: &'static str = "Looking for flats that match your choice.";

/// What is sent on `cancel`.
pub const CANCELLED: &'static str = "The dialogue is cancelled. Send /start to begin again.";

/// What stands before the commands where a message fits nothing.
pub const UNHANDLED: &'static str = "Unhandled message. Available commands:\n";

/// The commands, each with what it does.
pub const HELP: &'static str =
    "These commands are supported:\n\n/start \u{2014} Start the dialogue.\n/help \u{2014} Get help.\n/cancel \u{2014} Cancel the dialogue.";

/// What is sent where the listings could not be had.
pub const LISTING_FAILED: &'static str = "The listings could not be fetched. Please try again.";

/// What is sent where no listing matches.
pub const NO_FLATS: &'static str = "No flats were found.";

/// What stands before the listings.
pub const FLATS_FOUND: &'static str = "Flats found:\n\n";

/// What starts an item of a list.
pub const BULLET: &'static str = "\u{2022} ";

/// What parts the items of a list.
pub const NEWLINE: &'static str = "\n";

/// What parts the least price from the greatest.
pub const RANGE_SEPARATOR: &'static str = "-";

/// What parts the fields of a listing.
pub const FIELD_SEPARATOR: &'static str = ", ";

/// Where a conversation stands.
#[derive(Clone, Debug, PartialEq, Eq)]
pub enum State {
    /// At rest: nothing was chosen.
    Start,
    /// A city is awaited.
    ReceiveCityName,
    /// A district of the city is awaited.
    ReceiveDistrictName { city_name: String },
    /// A deal type of the district is awaited.
    ReceiveDealType { city_name: String, district_name: String },
    /// A price range is awaited.
    ReceivePriceRange { city_name: String, district_name: String, deal_type: String },
    /// The selection is complete and the search is under way. A
    /// conversation in this state is at rest as in `Start`, and returns to
    /// `Start` when the search has ended.
    Done,
}

/// A state as a mathematical value.
#[verifier::ext_equal]
pub enum StateView {
    Start,
    ReceiveCityName,
    ReceiveDistrictName { city_name: Seq<char> },
    ReceiveDealType { city_name: Seq<char>, district_name: Seq<char> },
    ReceivePriceRange { city_name: Seq<char>, district_name: Seq<char>, deal_type: Seq<char> },
    Done,
}

impl View for State {
    type V = StateView;

    open spec fn view(&self) -> StateView {
        match self {
            State::Start => StateView::Start,
            State::ReceiveCityName => StateView::ReceiveCityName,
            State::ReceiveDistrictName { city_name } => StateView::ReceiveDistrictName {
                city_name: city_name@,
            },
            State::ReceiveDealType { city_name, district_name } => StateView::ReceiveDealType {
                city_name: city_name@,
                district_name: district_name@,
            },
            State::ReceivePriceRange {
                city_name,
                district_name,
                deal_type,
            } => StateView::ReceivePriceRange {
                city_name: city_name@,
                district_name: district_name@,
                deal_type: deal_type@,
            },
            State::Done => StateView::Done,
        }
    }
}

impl Default for State {
    fn default() -> (state: State)
        ensures
            state == State::Start,
    {
        State::Start
    }
}

/// A command of the conversation.
#[derive(Clone, Copy, Debug, PartialEq, Eq, Structural)]
pub enum Command {
    /// Enter the funnel.
    Start,
    /// List the commands.
    Help,
    /// Return to `Start`.
    Cancel,
}

/// What came in.
#[derive(Clone, Debug, PartialEq, Eq)]
pub enum Inbound {
    /// A text that reads as a command.
    Command { command: Command, text: String },
    /// Any other text.
    Text(String),
    /// A message without text.
    Other,
}

/// What came in, as a mathematical value.
#[verifier::ext_equal]
pub enum InboundView {
    Command { command: Command, text: Seq<char> },
    Text(Seq<char>),
    Other,
}

impl View for Inbound {
    type V = InboundView;

    open spec fn view(&self) -> InboundView {
        match self {
            Inbound::Command { command, text } => InboundView::Command {
                command: *command,
                text: text@,
            },
            Inbound::Text(text) => InboundView::Text(text@),
            Inbound::Other => InboundView::Other,
        }
    }
}

impl InboundView {
    /// The text that came in, if any.
    pub open spec fn text(self) -> Option<Seq<char>> {
        match self {
            InboundView::Command { command, text } => Some(text),
            InboundView::Text(text) => Some(text),
            InboundView::Other => None,
        }
    }
}

/// Why what came in was turned down.
#[derive(Clone, Copy, Debug, PartialEq, Eq, Structural)]
pub enum Rejection {
    /// The message holds no text.
    NotText,
    /// The text does not read as what is awaited: it is no price range.
    Malformed,
    /// The text reads well, and the catalog does not offer what it names,
    /// or the prices are out of order.
    Invalid,
    /// The conversation does not stand where the turn takes it to stand, or
    /// the catalog no longer holds what was chosen before.
    Stale,
}

/// What a turn of the conversation comes to.
#[derive(Clone, Debug, PartialEq, Eq)]
pub struct Outcome {
    /// Where the conversation stands now.
    pub state: State,
    /// The message to send.
    pub reply: String,
    /// The search to run, where the selection is complete.
    pub search: Option<FlatCriteria>,
    /// Why what came in was turned down, where it was.
    pub rejected: Option<Rejection>,
}

/// An outcome as a mathematical value.
#[verifier::ext_equal]
pub struct OutcomeView {
    pub state: StateView,
    pub reply: Seq<char>,
    pub search: Option<CriteriaView>,
    pub rejected: Option<Rejection>,
}

impl View for Outcome {
    type V = OutcomeView;

    open spec fn view(&self) -> OutcomeView {
        OutcomeView {
            state: self.state@,
            reply: self.reply@,
            search: match self.search {
                Some(criteria) => Some(criteria@),
                None => None,
            },
            rejected: self.rejected,
        }
    }
}

/// The characters of a text that may be missing.
pub open spec fn str_view(text: Option<&str>) -> Option<Seq<char>> {
    match text {
        Some(t) => Some(t@),
        None => None,
    }
}

/// `names` as a list: one item to a line, each after a bullet.
pub open spec fn bullet_list(names: Seq<Seq<char>>) -> Seq<char>
    decreases names.len(),
{
    if names.len() == 0 {
        Seq::empty()
    } else if names.len() == 1 {
        BULLET@ + names[0]
    } else {
        bullet_list(names.drop_last()) + NEWLINE@ + BULLET@ + names.last()
    }
}

/// The price range that `text` writes: two numbers with a `-` between
/// them, blanks around either allowed.
pub open spec fn price_range(text: Seq<char>) -> Option<(u32, u32)> {
    match first_occurrence(text, RANGE_SEPARATOR@, 0) {
        None => None,
        Some(at) => match (
            parsed_u32(trimmed(text.take(at))),
            parsed_u32(trimmed(text.skip(at + RANGE_SEPARATOR@.len()))),
        ) {
            (Some(from), Some(to)) => Some((from, to)),
            _ => None,
        },
    }
}

/// The conversation stands in `state`, and `reply` is sent.
pub open spec fn stays(state: StateView, reply: Seq<char>) -> OutcomeView {
    OutcomeView { state, reply, search: None, rejected: None }
}

/// What came in is turned down: the conversation stays in `state`, and
/// `reply` says what was wrong.
pub open spec fn rejects(state: StateView, reply: Seq<char>, why: Rejection) -> OutcomeView {
    OutcomeView { state, reply, search: None, rejected: Some(why) }
}

/// `start`: the cities are listed, sorted, and a city is awaited.
pub open spec fn started(cities: Seq<CityView>) -> OutcomeView {
    OutcomeView {
        state: StateView::ReceiveCityName,
        reply: CITY_PROMPT@ + bullet_list(sorted_texts(city_names(cities))),
        search: None,
        rejected: None,
    }
}

/// An answer while a city is awaited.
pub open spec fn city_received(text: Option<Seq<char>>, cities: Seq<CityView>) -> OutcomeView {
    match text {
        None => rejects(StateView::ReceiveCityName, PLAIN_TEXT_EXPECTED@, Rejection::NotText),
        Some(name) => match position(city_names(cities), name) {
            None => rejects(
                StateView::ReceiveCityName,
                CITY_INVALID_OPEN@ + name + CITY_INVALID_CLOSE@,
                Rejection::Invalid,
            ),
            Some(at) => OutcomeView {
                state: StateView::ReceiveDistrictName { city_name: name },
                reply: DISTRICT_PROMPT@ + bullet_list(
                    sorted_texts(district_names(cities[at].districts)),
                ),
                search: None,
                rejected: None,
            },
        },
    }
}

/// An answer while a district of `city_name` is awaited.
pub open spec fn district_received(
    city_name: Seq<char>,
    text: Option<Seq<char>>,
    cities: Seq<CityView>,
) -> OutcomeView {
    let state = StateView::ReceiveDistrictName { city_name };
    match text {
        None => rejects(state, PLAIN_TEXT_EXPECTED@, Rejection::NotText),
        Some(name) => match position(city_names(cities), city_name) {
            None => rejects(state, CITY_NOT_FOUND@, Rejection::Stale),
            Some(at) => match position(district_names(cities[at].districts), name) {
                None => rejects(state, DISTRICT_NOT_FOUND@, Rejection::Invalid),
                Some(d) => OutcomeView {
                    state: StateView::ReceiveDealType { city_name, district_name: name },
                    reply: DEAL_TYPE_PROMPT@ + bullet_list(cities[at].districts[d].deal_types),
                    search: None,
                    rejected: None,
                },
            },
        },
    }
}

/// An answer while a deal type is awaited.
pub open spec fn deal_type_received(
    state: StateView,
    text: Option<Seq<char>>,
    cities: Seq<CityView>,
) -> OutcomeView {
    match text {
        None => rejects(state, PLAIN_TEXT_EXPECTED@, Rejection::NotText),
        Some(deal_type) => match state {
            StateView::ReceiveDealType { city_name, district_name } => match position(
                city_names(cities),
                city_name,
            ) {
                None => rejects(state, CITY_NOT_FOUND@, Rejection::Stale),
                Some(at) => match position(district_names(cities[at].districts), district_name) {
                    None => rejects(state, DISTRICT_NOT_FOUND@, Rejection::Stale),
                    Some(d) => if cities[at].districts[d].deal_types.contains(deal_type) {
                        OutcomeView {
                            state: StateView::ReceivePriceRange {
                                city_name,
                                district_name,
                                deal_type,
                            },
                            reply: PRICE_PROMPT@,
                            search: None,
                            rejected: None,
                        }
                    } else {
                        rejects(state, DEAL_TYPE_NOT_FOUND@, Rejection::Invalid)
                    },
                },
            },
            _ => rejects(state, UNEXPECTED_STATE@, Rejection::Stale),
        },
    }
}

/// An answer while a price range is awaited.
pub open spec fn price_range_received(
    city_name: Seq<char>,
    district_name: Seq<char>,
    deal_type: Seq<char>,
    text: Option<Seq<char>>,
    cities: Seq<CityView>,
) -> OutcomeView {
    let state = StateView::ReceivePriceRange { city_name, district_name, deal_type };
    match text {
        None => rejects(state, PLAIN_TEXT_EXPECTED@, Rejection::NotText),
        Some(range) => match price_range(range) {
            None => rejects(state, PRICE_PROMPT@, Rejection::Malformed),
            Some((from, to)) => if from > to {
                rejects(state, PRICE_ORDER@, Rejection::Invalid)
            } else {
                match position(city_names(cities), city_name) {
                    None => rejects(state, CITY_NOT_FOUND@, Rejection::Stale),
                    Some(at) => match position(
                        district_names(cities[at].districts),
                        district_name,
                    ) {
                        None => rejects(state, DISTRICT_NOT_FOUND@, Rejection::Stale),
                        Some(d) => if cities[at].districts[d].deal_types.contains(deal_type) {
                            OutcomeView {
                                state: StateView::Done,
                                reply: SEARCHING@,
                                search: Some(
                                    CriteriaView {
                                        href: cities[at].districts[d].href,
                                        city: city_name,
                                        district: district_name,
                                        deal_type,
                                        price_from: from,
                                        price_to: to,
                                    },
                                ),
                                rejected: None,
                            }
                        } else {
                            rejects(state, DEAL_TYPE_NOT_FOUND@, Rejection::Stale)
                        },
                    },
                }
            },
        },
    }
}

/// Whether a conversation in `state` is at rest: no answer is awaited.
pub open spec fn at_rest(state: StateView) -> bool {
    state is Start || state is Done
}

/// The rule of the conversation: what a turn comes to, given where the
/// conversation stands, what came in and the catalog.
///
/// `cancel` returns to `Start` from anywhere. At rest, `start` enters the
/// funnel and `help` lists the commands; any other text is answered with the
/// list of commands, and a message without text is turned down. While an
/// answer is awaited, whatever comes in is taken as that answer, the other
/// commands too.
pub open spec fn handled(state: StateView, inbound: InboundView, cities: Seq<CityView>) -> OutcomeView {
    if inbound matches InboundView::Command { command: Command::Cancel, text } {
        stays(StateView::Start, CANCELLED@)
    } else if at_rest(state) {
        match inbound {
            InboundView::Command { command: Command::Start, text } => started(cities),
            InboundView::Command { command: Command::Help, text } => stays(state, HELP@),
            InboundView::Other => rejects(state, PLAIN_TEXT_EXPECTED@, Rejection::NotText),
            _ => stays(state, UNHANDLED@ + HELP@),
        }
    } else {
        match state {
            StateView::ReceiveDistrictName { city_name } => district_received(
                city_name,
                inbound.text(),
                cities,
            ),
            StateView::ReceiveDealType { city_name, district_name } => deal_type_received(
                state,
                inbound.text(),
                cities,
            ),
            StateView::ReceivePriceRange {
                city_name,
                district_name,
                deal_type,
            } => price_range_received(city_name, district_name, deal_type, inbound.text(), cities),
            _ => city_received(inbound.text(), cities),
        }
    }
}

/// One line of the listings: the street, the price and the address of the
/// listing.
pub open spec fn flat_line(flat: crate::flats::FlatView) -> Seq<char> {
    flat.street_name + FIELD_SEPARATOR@ + flat.price + FIELD_SEPARATOR@ + flat.url
}

/// The search has ended: the conversation returns to `Start`, and the
/// listings are sent, or the news that there are none or that they could
/// not be had.
pub open spec fn concluded(found: Result<Seq<crate::flats::FlatView>, FetchError>) -> OutcomeView {
    match found {
        Err(_) => stays(StateView::Start, LISTING_FAILED@),
        Ok(flats) => if flats.len() == 0 {
            stays(StateView::Start, NO_FLATS@)
        } else {
            stays(
                StateView::Start,
                FLATS_FOUND@ + bullet_list(flats.map_values(|f: crate::flats::FlatView| flat_line(f))),
            )
        },
    }
}

/// `names` as a list: see `bullet_list`.
pub fn bullets(names: &Vec<String>) -> (list: String)
    ensures
        list@ == bullet_list(texts(names@)),
{
    let ghost all = texts(names@);
    let mut list = String::new();
    let mut i: usize = 0;
    proof {
        assert(all.take(0) =~= Seq::<Seq<char>>::empty());
    }
    while i < names.len()
        invariant
            i <= names.len(),
            all == texts(names@),
            list@ == bullet_list(all.take(i as int)),
        decreases names.len() - i,
    {
        let ghost before = list@;
        proof {
            assert(all.take(i + 1).drop_last() =~= all.take(i as int));
            assert(all.take(i + 1).last() == names@[i as int]@);
        }
        if i > 0 {
            list.append(NEWLINE);
        }
        list.append(BULLET);
        list.append(names[i].as_str());
        proof {
            if i == 0 {
                assert(before =~= Seq::<char>::empty());
                assert(all.take(1)[0] == names@[0]@);
                assert(list@ =~= BULLET@ + names@[0]@);
            } else {
                assert(list@ =~= before + NEWLINE@ + BULLET@ + names@[i as int]@);
            }
        }
        i = i + 1;
    }
    proof {
        assert(all.take(i as int) =~= all);
    }
    list
}

/// The names of `cities`, in order.
pub fn names_of_cities(cities: &Vec<City>) -> (names: Vec<String>)
    ensures
        texts(names@) == city_names(city_views(cities@)),
{
    let mut names: Vec<String> = Vec::new();
    let mut i: usize = 0;
    while i < cities.len()
        invariant
            i <= cities.len(),
            names.len() == i,
            forall|k: int| 0 <= k < i ==> (#[trigger] names@[k])@ == cities@[k].name@,
        decreases cities.len() - i,
    {
        names.push(cities[i].name.clone());
        i = i + 1;
    }
    proof {
        assert(texts(names@) =~= city_names(city_views(cities@)));
    }
    names
}

/// The names of `districts`, in order.
pub fn names_of_districts(districts: &Vec<crate::flats::CategoryStructure>) -> (names: Vec<String>)
    ensures
        texts(names@) == district_names(district_views(districts@)),
{
    let mut names: Vec<String> = Vec::new();
    let mut i: usize = 0;
    while i < districts.len()
        invariant
            i <= districts.len(),
            names.len() == i,
            forall|k: int| 0 <= k < i ==> (#[trigger] names@[k])@ == districts@[k].name@,
        decreases districts.len() - i,
    {
        names.push(districts[i].name.clone());
        i = i + 1;
    }
    proof {
        assert(texts(names@) =~= district_names(district_views(districts@)));
    }
    names
}

/// The price range that `text` writes: see `price_range`.
pub fn parse_price_range(text: &str) -> (range: Option<(u32, u32)>)
    ensures
        range == price_range(text@),
{
    let chars = chars_of(text);
    let separator = chars_of(RANGE_SEPARATOR);
    let at: usize = match find(&chars, &separator) {
        Some(at) => at,
        None => {
            return None;
        },
    };
    proof {
        crate::text::lemma_first_occurrence(chars@, separator@, 0);
        assert(chars@.subrange(0, at as int) =~= chars@.take(at as int));
        assert(chars@.subrange(at + separator.len(), chars.len() as int) =~= chars@.skip(
            at + separator.len(),
        ));
    }
    let (lo, hi) = trim_bounds(&chars, 0, at);
    let from = parse_u32(&chars, lo, hi);
    let (lo, hi) = trim_bounds(&chars, at + separator.len(), chars.len());
    let to = parse_u32(&chars, lo, hi);
    match (from, to) {
        (Some(from), Some(to)) => Some((from, to)),
        _ => None,
    }
}

/// The conversation stands in `state`, and `reply` is sent.
fn stay(state: State, reply: &str) -> (out: Outcome)
    ensures
        out@ == stays(state@, reply@),
{
    Outcome { state, reply: reply.to_owned(), search: None, rejected: None }
}

/// What came in is turned down for `why`.
fn reject(state: State, reply: &str, why: Rejection) -> (out: Outcome)
    ensures
        out@ == rejects(state@, reply@, why),
{
    Outcome { state, reply: reply.to_owned(), search: None, rejected: Some(why) }
}

/// Answers `help`: the commands are listed, and the conversation stays
/// where it is.
pub fn help_message(state: State) -> (out: Outcome)
    ensures
        out@ == stays(state@, HELP@),
{
    stay(state, HELP)
}

/// Answers what fits nothing: the commands are listed, and the
/// conversation stays where it is.
pub fn unhandled_message(state: State) -> (out: Outcome)
    ensures
        out@ == stays(state@, UNHANDLED@ + HELP@),
{
    let mut reply = UNHANDLED.to_owned();
    reply.append(HELP);
    Outcome { state, reply, search: None, rejected: None }
}

/// Answers `cancel`: the conversation returns to `Start`.
pub fn cancel() -> (out: Outcome)
    ensures
        out@ == stays(StateView::Start, CANCELLED@),
{
    stay(State::Start, CANCELLED)
}

/// Answers `start`: the cities are listed, sorted, and a city is awaited.
pub fn start(cities: &Vec<City>) -> (out: Outcome)
    ensures
        out@ == started(city_views(cities@)),
{
    let names = names_of_cities(cities);
    let sorted = sort_texts(&names);
    let mut reply = CITY_PROMPT.to_owned();
    reply.append(bullets(&sorted).as_str());
    Outcome { state: State::ReceiveCityName, reply, search: None, rejected: None }
}

/// Takes an answer while a city is awaited: the name of a city of the
/// catalog, exactly as it stands there, leads on to its districts, which
/// are listed, sorted; anything else leaves the conversation where it is.
pub fn recieve_city_name(text: Option<&str>, cities: &Vec<City>) -> (out: Outcome)
    ensures
        out@ == city_received(str_view(text), city_views(cities@)),
{
    let name = match text {
        Some(name) => name,
        None => {
            return reject(State::ReceiveCityName, PLAIN_TEXT_EXPECTED, Rejection::NotText);
        },
    };
    match find_city(cities, name) {
        None => {
            let mut reply = CITY_INVALID_OPEN.to_owned();
            reply.append(name);
            reply.append(CITY_INVALID_CLOSE);
            Outcome {
                state: State::ReceiveCityName,
                reply,
                search: None,
                rejected: Some(Rejection::Invalid),
            }
        },
        Some(at) => {
            let names = names_of_districts(&cities[at].districts);
            let sorted = sort_texts(&names);
            let mut reply = DISTRICT_PROMPT.to_owned();
            reply.append(bullets(&sorted).as_str());
            Outcome {
                state: State::ReceiveDistrictName { city_name: name.to_owned() },
                reply,
                search: None,
                rejected: None,
            }
        },
    }
}

/// Takes an answer while a district of the city `city_name` is awaited: the
/// name of one of its districts leads on to the deal types of the first
/// district of that name, which are listed; anything else, or a city that
/// the catalog no longer holds, leaves the conversation where it is.
pub fn receive_district_name(city_name: String, text: Option<&str>, cities: &Vec<City>) -> (out:
    Outcome)
    ensures
        out@ == district_received(city_name@, str_view(text), city_views(cities@)),
{
    let name = match text {
        Some(name) => name,
        None => {
            return reject(
                State::ReceiveDistrictName { city_name },
                PLAIN_TEXT_EXPECTED,
                Rejection::NotText,
            );
        },
    };
    let at = match find_city(cities, city_name.as_str()) {
        Some(at) => at,
        None => {
            return reject(
                State::ReceiveDistrictName { city_name },
                CITY_NOT_FOUND,
                Rejection::Stale,
            );
        },
    };
    let d = match find_district(&cities[at].districts, name) {
        Some(d) => d,
        None => {
            return reject(
                State::ReceiveDistrictName { city_name },
                DISTRICT_NOT_FOUND,
                Rejection::Invalid,
            );
        },
    };
    let mut reply = DEAL_TYPE_PROMPT.to_owned();
    reply.append(bullets(&cities[at].districts[d].deal_types).as_str());
    Outcome {
        state: State::ReceiveDealType { city_name, district_name: name.to_owned() },
        reply,
        search: None,
        rejected: None,
    }
}

/// Takes an answer while a deal type is awaited: one that the district
/// offers leads on to the price range; anything else, a state that awaits
/// no deal type, or a city or district that the catalog no longer holds,
/// leaves the conversation where it is.
pub fn receive_deal_type(state: State, text: Option<&str>, cities: &Vec<City>) -> (out: Outcome)
    ensures
        out@ == deal_type_received(state@, str_view(text), city_views(cities@)),
{
    let deal_type = match text {
        Some(deal_type) => deal_type,
        None => {
            return reject(state, PLAIN_TEXT_EXPECTED, Rejection::NotText);
        },
    };
    let (city_name, district_name) = match state {
        State::ReceiveDealType { city_name, district_name } => (city_name, district_name),
        other => {
            return reject(other, UNEXPECTED_STATE, Rejection::Stale);
        },
    };
    let at = match find_city(cities, city_name.as_str()) {
        Some(at) => at,
        None => {
            return reject(
                State::ReceiveDealType { city_name, district_name },
                CITY_NOT_FOUND,
                Rejection::Stale,
            );
        },
    };
    let d = match find_district(&cities[at].districts, district_name.as_str()) {
        Some(d) => d,
        None => {
            return reject(
                State::ReceiveDealType { city_name, district_name },
                DISTRICT_NOT_FOUND,
                Rejection::Stale,
            );
        },
    };
    if !cities[at].districts[d].offers(deal_type) {
        return reject(
            State::ReceiveDealType { city_name, district_name },
            DEAL_TYPE_NOT_FOUND,
            Rejection::Invalid,
        );
    }
    Outcome {
        state: State::ReceivePriceRange {
            city_name,
            district_name,
            deal_type: deal_type.to_owned(),
        },
        reply: PRICE_PROMPT.to_owned(),
        search: None,
        rejected: None,
    }
}

/// Takes an answer while a price range is awaited: a range whose least
/// price is not above its greatest completes the selection, where the
/// catalog still holds the city, the district and the deal type; anything
/// else leaves the conversation where it is.
pub fn receive_price_range(
    city_name: String,
    district_name: String,
    deal_type: String,
    text: Option<&str>,
    cities: &Vec<City>,
) -> (out: Outcome)
    ensures
        out@ == price_range_received(
            city_name@,
            district_name@,
            deal_type@,
            str_view(text),
            city_views(cities@),
        ),
        out.search matches Some(criteria) ==> criteria.price_from <= criteria.price_to,
{
    let range = match text {
        Some(range) => range,
        None => {
            return reject(
                State::ReceivePriceRange { city_name, district_name, deal_type },
                PLAIN_TEXT_EXPECTED,
                Rejection::NotText,
            );
        },
    };
    let (from, to) = match parse_price_range(range) {
        Some(bounds) => bounds,
        None => {
            return reject(
                State::ReceivePriceRange { city_name, district_name, deal_type },
                PRICE_PROMPT,
                Rejection::Malformed,
            );
        },
    };
    if from > to {
        return reject(
            State::ReceivePriceRange { city_name, district_name, deal_type },
            PRICE_ORDER,
            Rejection::Invalid,
        );
    }
    let at = match find_city(cities, city_name.as_str()) {
        Some(at) => at,
        None => {
            return reject(
                State::ReceivePriceRange { city_name, district_name, deal_type },
                CITY_NOT_FOUND,
                Rejection::Stale,
            );
        },
    };
    let d = match find_district(&cities[at].districts, district_name.as_str()) {
        Some(d) => d,
        None => {
            return reject(
                State::ReceivePriceRange { city_name, district_name, deal_type },
                DISTRICT_NOT_FOUND,
                Rejection::Stale,
            );
        },
    };
    if !cities[at].districts[d].offers(deal_type.as_str()) {
        return reject(
            State::ReceivePriceRange { city_name, district_name, deal_type },
            DEAL_TYPE_NOT_FOUND,
            Rejection::Stale,
        );
    }
    let criteria = FlatCriteria {
        href: cities[at].districts[d].href.clone(),
        city: city_name,
        district: district_name,
        deal_type,
        price_from: from,
        price_to: to,
    };
    Outcome {
        state: State::Done,
        reply: SEARCHING.to_owned(),
        search: Some(criteria),
        rejected: None,
    }
}

/// The text that came in, if any.
pub fn text_of(inbound: &Inbound) -> (text: Option<&str>)
    ensures
        str_view(text) == inbound@.text(),
{
    match inbound {
        Inbound::Command { command, text } => Some(text.as_str()),
        Inbound::Text(text) => Some(text.as_str()),
        Inbound::Other => None,
    }
}

/// One turn of the conversation: see `handled`.
pub fn handle(state: State, inbound: &Inbound, cities: &Vec<City>) -> (out: Outcome)
    ensures
        out@ == handled(state@, inbound@, city_views(cities@)),
        out.search matches Some(criteria) ==> criteria.price_from <= criteria.price_to,
{
    if let Inbound::Command { command: Command::Cancel, text } = inbound {
        return cancel();
    }
    match state {
        State::Start | State::Done => match inbound {
            Inbound::Command { command: Command::Start, text } => start(cities),
            Inbound::Command { command: Command::Help, text } => help_message(state),
            Inbound::Other => reject(state, PLAIN_TEXT_EXPECTED, Rejection::NotText),
            _ => unhandled_message(state),
        },
        State::ReceiveCityName => recieve_city_name(text_of(inbound), cities),
        State::ReceiveDistrictName { city_name } => receive_district_name(
            city_name,
            text_of(inbound),
            cities,
        ),
        State::ReceiveDealType { city_name, district_name } => receive_deal_type(
            State::ReceiveDealType { city_name, district_name },
            text_of(inbound),
            cities,
        ),
        State::ReceivePriceRange { city_name, district_name, deal_type } => receive_price_range(
            city_name,
            district_name,
            deal_type,
            text_of(inbound),
            cities,
        ),
    }
}

/// What `flats` come to as lines: see `flat_line`.
pub fn flat_lines(flats: &Vec<Flat>) -> (lines: Vec<String>)
    ensures
        texts(lines@) == crate::flats::flat_views(flats@).map_values(
            |f: crate::flats::FlatView| flat_line(f),
        ),
{
    let mut lines: Vec<String> = Vec::new();
    let mut i: usize = 0;
    while i < flats.len()
        invariant
            i <= flats.len(),
            lines.len() == i,
            forall|k: int| 0 <= k < i ==> (#[trigger] lines@[k])@ == flat_line(flats@[k]@),
        decreases flats.len() - i,
    {
        let mut line = flats[i].street_name.clone();
        line.append(FIELD_SEPARATOR);
        line.append(flats[i].price.as_str());
        line.append(FIELD_SEPARATOR);
        line.append(flats[i].url.as_str());
        lines.push(line);
        i = i + 1;
    }
    proof {
        assert(texts(lines@) =~= crate::flats::flat_views(flats@).map_values(
            |f: crate::flats::FlatView| flat_line(f),
        ));
    }
    lines
}

/// The search has ended: see `concluded`.
pub fn conclude(found: &Result<Vec<Flat>, FetchError>) -> (out: Outcome)
    ensures
        out@ == concluded(
            match found {
                Ok(flats) => Ok(crate::flats::flat_views(flats@)),
                Err(error) => Err(*error),
            },
        ),
{
    match found {
        Err(_) => stay(State::Start, LISTING_FAILED),
        Ok(flats) => if flats.len() == 0 {
            stay(State::Start, NO_FLATS)
        } else {
            let lines = flat_lines(flats);
            let mut reply = FLATS_FOUND.to_owned();
            reply.append(bullets(&lines).as_str());
            Outcome { state: State::Start, reply, search: None, rejected: None }
        },
    }
}

} // verus!
