//! The crawler: from the root page to the cities, from each city to its
//! districts, from each district to its deal types.
//!
//! The crawler fetches nothing itself. `FlatsParser::parse_global_data`
//! takes what happened (the crawl was begun; a page was fetched, or could
//! not be) and says what to do next; whoever drives it fetches the page it
//! asks for and hands the outcome back.

use super::markup::{
    element_views, free_below, is_readable, lemma_plain, pattern_compiles, plain, readable,
    replace_all, select_elements, selected, selector_parses, without_char, Element, ElementView,
    NBSP, NBSP_PATTERN,
};
use super::{
    city_views, district_views, insert_district, position, with_district, CategoryStructure, City,
    CityView, DistrictView, FlatsParser, ParserView,
};
use crate::text::{
    chars_of, find, first_occurrence, same_text, texts, trim_bounds, trimmed,
};
use vstd::prelude::*;

verus! {

/// The path of the root page, below the site's address.
pub const ROOT_PATH: &'static str = "/lv/real-estate/flats/";

/// The selector of the links to cities on the root page, and to districts
/// on a city's page.
pub const CATEGORY_SELECTOR: &'static str = "a.a_category";

/// The selector of the deal types on a district's page.
pub const DEAL_TYPE_SELECTOR: &'static str = "select.filter_sel.l100 > option";

/// The attribute that holds a link's target.
pub const LINK_ATTR: &'static str = "href";

/// The attribute that holds a deal type's code.
pub const VALUE_ATTR: &'static str = "value";

/// What parts a city's displayed name: the word `and` between two spaces.
pub const NAME_SEPARATOR: &'static str = " and ";

/// Why a crawl failed.
#[derive(Clone, Copy, Debug, PartialEq, Eq, Structural)]
pub enum CrawlError {
    /// The pattern that cleans deal types was refused.
    PatternFailed,
    /// The root page could not be fetched, or is too long to be read.
    RootFetchFailed,
    /// A selector was refused.
    SelectorFailed,
    /// A district's page could not be fetched, or is too long to be read.
    DealTypeFetchFailed,
}

/// What is said where the pattern that cleans deal types was refused.
pub const PATTERN_FAILED: &'static str = "Failed to create regex";

/// What is said where the root page could not be fetched.
pub const ROOT_FETCH_FAILED: &'static str = "Failed to get the page of cities";

/// What is said where a selector was refused.
pub const SELECTOR_FAILED: &'static str = "Failed to parse selector";

/// What is said where a district's page could not be fetched.
pub const DEAL_TYPE_FETCH_FAILED: &'static str = "Failed to get the page of a district";

impl CrawlError {
    /// What is said of the failure.
    pub open spec fn text(self) -> Seq<char> {
        match self {
            CrawlError::PatternFailed => PATTERN_FAILED@,
            CrawlError::RootFetchFailed => ROOT_FETCH_FAILED@,
            CrawlError::SelectorFailed => SELECTOR_FAILED@,
            CrawlError::DealTypeFetchFailed => DEAL_TYPE_FETCH_FAILED@,
        }
    }

    /// What is said of the failure.
    pub fn message(&self) -> (text: String)
        ensures
            text@ == self.text(),
    {
        match self {
            CrawlError::PatternFailed => PATTERN_FAILED.to_owned(),
            CrawlError::RootFetchFailed => ROOT_FETCH_FAILED.to_owned(),
            CrawlError::SelectorFailed => SELECTOR_FAILED.to_owned(),
            CrawlError::DealTypeFetchFailed => DEAL_TYPE_FETCH_FAILED.to_owned(),
        }
    }
}

/// What the crawler waits for.
#[derive(Clone, Copy, Debug, PartialEq, Eq, Structural)]
pub enum Stage {
    /// No crawl was begun.
    Idle,
    /// The root page.
    Root,
    /// The page of the first of the cities still to visit.
    City,
    /// The page of the first of the districts still to visit, in the first
    /// of the cities still to visit.
    Deals,
    /// The crawl is complete.
    Finished,
    /// The crawl failed.
    Failed(CrawlError),
}

/// A name and the link that it leads to.
#[derive(Debug, Clone, PartialEq, Eq)]
pub struct Link {
    pub name: String,
    pub href: String,
}

/// A link as a mathematical value.
#[verifier::ext_equal]
pub struct LinkView {
    pub name: Seq<char>,
    pub href: Seq<char>,
}

impl View for Link {
    type V = LinkView;

    open spec fn view(&self) -> LinkView {
        LinkView { name: self.name@, href: self.href@ }
    }
}

/// The views of a sequence of links.
pub open spec fn link_views(links: Seq<Link>) -> Seq<LinkView> {
    links.map_values(|l: Link| l@)
}

/// The names of a sequence of links.
pub open spec fn link_names(links: Seq<LinkView>) -> Seq<Seq<char>> {
    links.map_values(|l: LinkView| l.name)
}

/// How far a crawl has come.
pub struct Crawl {
    stage: Stage,
    cities: Vec<Link>,
    districts: Vec<Link>,
    found: Vec<CategoryStructure>,
    built: Vec<City>,
}

/// A crawl's progress as a mathematical value.
#[verifier::ext_equal]
pub struct CrawlView {
    /// What the crawler waits for.
    pub stage: Stage,
    /// The cities still to visit, the one being visited first.
    pub cities: Seq<LinkView>,
    /// The districts still to visit in that city, the one being visited
    /// first.
    pub districts: Seq<LinkView>,
    /// The districts of that city that are complete.
    pub found: Seq<DistrictView>,
    /// The cities that are complete.
    pub built: Seq<CityView>,
}

impl CrawlView {
    /// No crawl under way, and nothing assembled.
    pub open spec fn idle() -> CrawlView {
        CrawlView {
            stage: Stage::Idle,
            cities: Seq::empty(),
            districts: Seq::empty(),
            found: Seq::empty(),
            built: Seq::empty(),
        }
    }
}

impl View for Crawl {
    type V = CrawlView;

    closed spec fn view(&self) -> CrawlView {
        CrawlView {
            stage: self.stage,
            cities: link_views(self.cities@),
            districts: link_views(self.districts@),
            found: district_views(self.found@),
            built: city_views(self.built@),
        }
    }
}

impl Crawl {
    /// No crawl under way.
    pub fn new() -> (crawl: Crawl)
        ensures
            crawl@ == CrawlView::idle(),
    {
        let crawl = Crawl {
            stage: Stage::Idle,
            cities: Vec::new(),
            districts: Vec::new(),
            found: Vec::new(),
            built: Vec::new(),
        };
        proof {
            assert(crawl@.cities =~= Seq::<LinkView>::empty());
            assert(crawl@.districts =~= Seq::<LinkView>::empty());
            assert(crawl@.found =~= Seq::<DistrictView>::empty());
            assert(crawl@.built =~= Seq::<CityView>::empty());
        }
        crawl
    }
}

/// How a fetch ended.
#[derive(Debug, Clone, PartialEq, Eq)]
pub enum FetchOutcome {
    /// The site answered, with this status and this body.
    Page { status: u16, body: String },
    /// The site could not be reached, or its answer could not be read.
    Unreachable,
}

/// Whether a status says that the request succeeded.
pub open spec fn is_success(status: u16) -> bool {
    200 <= status < 300
}

impl FetchOutcome {
    /// The body of the answer, where the request succeeded.
    pub open spec fn page(&self) -> Option<Seq<char>> {
        match self {
            FetchOutcome::Page { status, body } => if is_success(*status) {
                Some(body@)
            } else {
                None
            },
            FetchOutcome::Unreachable => None,
        }
    }

    /// The body of the answer, where the request succeeded.
    pub fn into_page(self) -> (body: Option<String>)
        ensures
            self.page() == match body {
                Some(text) => Some(text@),
                None => None,
            },
    {
        match self {
            FetchOutcome::Page { status, body } => if 200 <= status && status < 300 {
                Some(body)
            } else {
                None
            },
            FetchOutcome::Unreachable => None,
        }
    }
}

/// What happened since the crawler was last asked.
#[derive(Debug, Clone, PartialEq, Eq)]
pub enum CrawlEvent {
    /// A crawl is to begin.
    Begin,
    /// The page that the crawler asked for was fetched, or could not be.
    Fetched(FetchOutcome),
}

/// An event as a mathematical value.
#[verifier::ext_equal]
pub enum EventView {
    Begin,
    /// The body of the page, where the fetch succeeded.
    Fetched(Option<Seq<char>>),
}

impl View for CrawlEvent {
    type V = EventView;

    open spec fn view(&self) -> EventView {
        match self {
            CrawlEvent::Begin => EventView::Begin,
            CrawlEvent::Fetched(outcome) => EventView::Fetched(outcome.page()),
        }
    }
}

/// What the crawler asks for next.
#[derive(Debug, Clone, PartialEq, Eq)]
pub enum CrawlStep {
    /// Fetch the page at this address, and hand back the outcome.
    Fetch(String),
    /// The crawl is complete: the catalog holds what was found.
    Finished,
    /// The crawl failed: the catalog is as it was before the crawl.
    Failed(CrawlError),
    /// No crawl was begun.
    Idle,
}

/// A step as a mathematical value.
#[verifier::ext_equal]
pub enum StepView {
    Fetch(Seq<char>),
    Finished,
    Failed(CrawlError),
    Idle,
}

impl View for CrawlStep {
    type V = StepView;

    open spec fn view(&self) -> StepView {
        match self {
            CrawlStep::Fetch(url) => StepView::Fetch(url@),
            CrawlStep::Finished => StepView::Finished,
            CrawlStep::Failed(error) => StepView::Failed(*error),
            CrawlStep::Idle => StepView::Idle,
        }
    }
}

/// The links among `elements`: those that carry the attribute, each as its
/// text and the attribute's value, in order.
pub open spec fn links_of(elements: Seq<ElementView>) -> Seq<LinkView>
    decreases elements.len(),
{
    if elements.len() == 0 {
        Seq::empty()
    } else {
        let rest = links_of(elements.drop_last());
        match elements.last().1 {
            Some(href) => rest.push(LinkView { name: elements.last().0, href }),
            None => rest,
        }
    }
}

/// The name under which a city is kept: what stands before the first
/// ` and ` of its displayed name (all of it, where there is none), without
/// the blanks at either end.
pub open spec fn normalized_name(display: Seq<char>) -> Seq<char> {
    match first_occurrence(display, NAME_SEPARATOR@, 0) {
        Some(at) => trimmed(display.take(at)),
        None => trimmed(display),
    }
}

/// `links` with `link` in the place of the first link of the same name, or
/// at the end where there is none.
pub open spec fn upserted(links: Seq<LinkView>, link: LinkView) -> Seq<LinkView> {
    match position(link_names(links), link.name) {
        Some(at) => links.update(at, link),
        None => links.push(link),
    }
}

/// The cities that `links` lead to: each name normalized; of several links
/// with one name, the city stands where the first stood and leads where the
/// last led.
pub open spec fn city_links(links: Seq<LinkView>) -> Seq<LinkView>
    decreases links.len(),
{
    if links.len() == 0 {
        Seq::empty()
    } else {
        upserted(
            city_links(links.drop_last()),
            LinkView { name: normalized_name(links.last().name), href: links.last().href },
        )
    }
}

/// `names` without repetitions: of equal names the first stays.
pub open spec fn distinct(names: Seq<Seq<char>>) -> Seq<Seq<char>>
    decreases names.len(),
{
    if names.len() == 0 {
        Seq::empty()
    } else {
        let rest = distinct(names.drop_last());
        if rest.contains(names.last()) {
            rest
        } else {
            rest.push(names.last())
        }
    }
}

/// The texts of `elements`, each without its no-break spaces.
pub open spec fn cleaned_texts(elements: Seq<ElementView>) -> Seq<Seq<char>> {
    elements.map_values(|e: ElementView| without_char(e.0, NBSP))
}

/// The deal types that `elements` name: their texts, cleaned, without
/// repetitions.
pub open spec fn deal_types_of(elements: Seq<ElementView>) -> Seq<Seq<char>> {
    distinct(cleaned_texts(elements))
}

/// The crawl has failed: the catalog stays as it is.
pub open spec fn halted(p: ParserView, error: CrawlError) -> (ParserView, StepView) {
    (
        ParserView { crawl: CrawlView { stage: Stage::Failed(error), ..p.crawl }, ..p },
        StepView::Failed(error),
    )
}

/// Turns to the first of the cities still to visit; where none is left, the
/// crawl is complete and what was assembled becomes the catalog.
pub open spec fn city_visit(p: ParserView) -> (ParserView, StepView) {
    if p.crawl.cities.len() == 0 {
        (
            ParserView {
                cities: p.crawl.built,
                crawl: CrawlView { stage: Stage::Finished, built: Seq::empty(), ..p.crawl },
                ..p
            },
            StepView::Finished,
        )
    } else {
        (
            ParserView { crawl: CrawlView { stage: Stage::City, ..p.crawl }, ..p },
            StepView::Fetch(p.url_base + p.crawl.cities[0].href),
        )
    }
}

/// Leaves the city being visited, without a trace of it.
pub open spec fn city_skipped(p: ParserView) -> (ParserView, StepView) {
    if p.crawl.cities.len() == 0 {
        city_visit(p)
    } else {
        city_visit(
            ParserView {
                crawl: CrawlView {
                    cities: p.crawl.cities.drop_first(),
                    districts: Seq::empty(),
                    found: Seq::empty(),
                    ..p.crawl
                },
                ..p
            },
        )
    }
}

/// The city being visited is complete: it joins the cities assembled, with
/// the districts found.
pub open spec fn city_closed(p: ParserView) -> (ParserView, StepView) {
    if p.crawl.cities.len() == 0 {
        city_visit(p)
    } else {
        let city = CityView {
            name: p.crawl.cities[0].name,
            href: p.crawl.cities[0].href,
            districts: p.crawl.found,
        };
        city_visit(
            ParserView {
                crawl: CrawlView {
                    cities: p.crawl.cities.drop_first(),
                    districts: Seq::empty(),
                    found: Seq::empty(),
                    built: p.crawl.built.push(city),
                    ..p.crawl
                },
                ..p
            },
        )
    }
}

/// Turns to the first of the districts still to visit; where none is left,
/// the city is complete.
pub open spec fn district_visit(p: ParserView) -> (ParserView, StepView) {
    if p.crawl.districts.len() == 0 {
        city_closed(p)
    } else {
        (
            ParserView { crawl: CrawlView { stage: Stage::Deals, ..p.crawl }, ..p },
            StepView::Fetch(p.url_base + p.crawl.districts[0].href),
        )
    }
}

/// A crawl begins: nothing is assembled yet, and the root page is asked for,
/// unless the pattern that cleans deal types is refused.
pub open spec fn begun(p: ParserView) -> (ParserView, StepView) {
    let fresh = ParserView {
        crawl: CrawlView { stage: Stage::Root, ..CrawlView::idle() },
        ..p
    };
    if pattern_compiles(NBSP_PATTERN@) {
        (fresh, StepView::Fetch(p.url_base + ROOT_PATH@))
    } else {
        halted(fresh, CrawlError::PatternFailed)
    }
}

/// The parser once the root page `body` is read: its links say which cities
/// to visit.
pub open spec fn root_opened(p: ParserView, body: Seq<char>) -> ParserView {
    ParserView {
        crawl: CrawlView {
            cities: city_links(links_of(selected(body, CATEGORY_SELECTOR@, LINK_ATTR@))),
            ..p.crawl
        },
        ..p
    }
}

/// The parser once the page `body` of the city being visited is read: its
/// links say which districts to visit.
pub open spec fn city_opened(p: ParserView, body: Seq<char>) -> ParserView {
    ParserView {
        crawl: CrawlView {
            districts: links_of(selected(body, CATEGORY_SELECTOR@, LINK_ATTR@)),
            found: Seq::empty(),
            ..p.crawl
        },
        ..p
    }
}

/// The parser once the page `body` of the district being visited is read:
/// the district is complete, with the deal types that the page names.
pub open spec fn district_closed(p: ParserView, body: Seq<char>) -> ParserView {
    if p.crawl.districts.len() == 0 {
        p
    } else {
        let district = DistrictView {
            name: p.crawl.districts[0].name,
            href: p.crawl.districts[0].href,
            deal_types: deal_types_of(selected(body, DEAL_TYPE_SELECTOR@, VALUE_ATTR@)),
        };
        ParserView {
            crawl: CrawlView {
                districts: p.crawl.districts.drop_first(),
                found: with_district(p.crawl.found, district),
                ..p.crawl
            },
            ..p
        }
    }
}

/// The root page has come, or has not: without it the crawl fails; with it,
/// the crawl turns to the first city.
pub open spec fn root_read(p: ParserView, page: Option<Seq<char>>) -> (ParserView, StepView) {
    match page {
        None => halted(p, CrawlError::RootFetchFailed),
        Some(body) => if !selector_parses(CATEGORY_SELECTOR@) {
            halted(p, CrawlError::SelectorFailed)
        } else {
            city_visit(root_opened(p, body))
        },
    }
}

/// A city's page has come, or has not: without it the city is left out;
/// with it, the crawl turns to the city's first district.
pub open spec fn city_read(p: ParserView, page: Option<Seq<char>>) -> (ParserView, StepView) {
    match page {
        None => city_skipped(p),
        Some(body) => if !selector_parses(CATEGORY_SELECTOR@) {
            halted(p, CrawlError::SelectorFailed)
        } else {
            district_visit(city_opened(p, body))
        },
    }
}

/// A district's page has come, or has not: without it the crawl fails; with
/// it, the district is complete and the crawl turns to the next.
pub open spec fn deals_read(p: ParserView, page: Option<Seq<char>>) -> (ParserView, StepView) {
    match page {
        None => halted(p, CrawlError::DealTypeFetchFailed),
        Some(body) => if !selector_parses(DEAL_TYPE_SELECTOR@) {
            halted(p, CrawlError::SelectorFailed)
        } else if !pattern_compiles(NBSP_PATTERN@) {
            halted(p, CrawlError::PatternFailed)
        } else {
            district_visit(district_closed(p, body))
        },
    }
}

/// What can be read of what was fetched: the page, unless none came or it
/// is too long to be read.
pub open spec fn legible(page: Option<Seq<char>>) -> Option<Seq<char>> {
    match page {
        Some(body) => if readable(body) {
            Some(body)
        } else {
            None
        },
        None => None,
    }
}

/// The crawler's rule: the parser and the step that follow from a parser
/// and an event. A page that is too long to be read counts as a page that
/// did not come.
pub open spec fn advance(p: ParserView, event: EventView) -> (ParserView, StepView) {
    match event {
        EventView::Begin => begun(p),
        EventView::Fetched(page) => match p.crawl.stage {
            Stage::Root => root_read(p, legible(page)),
            Stage::City => city_read(p, legible(page)),
            Stage::Deals => deals_read(p, legible(page)),
            Stage::Idle => (p, StepView::Idle),
            Stage::Finished => (p, StepView::Finished),
            Stage::Failed(error) => (p, StepView::Failed(error)),
        },
    }
}

proof fn lemma_link_views_push(links: Seq<Link>, link: Link)
    ensures
        link_views(links.push(link)) == link_views(links).push(link@),
{
    assert(link_views(links.push(link)) =~= link_views(links).push(link@));
}

/// The links among `elements`: see `links_of`.
pub fn links_among(elements: &Vec<Element>) -> (links: Vec<Link>)
    ensures
        link_views(links@) == links_of(element_views(elements@)),
{
    let ghost views = element_views(elements@);
    let mut links: Vec<Link> = Vec::new();
    let mut i: usize = 0;
    proof {
        assert(views.take(0) =~= Seq::<ElementView>::empty());
        assert(link_views(links@) =~= Seq::<LinkView>::empty());
    }
    while i < elements.len()
        invariant
            i <= elements.len(),
            views == element_views(elements@),
            link_views(links@) == links_of(views.take(i as int)),
        decreases elements.len() - i,
    {
        proof {
            assert(views.take(i + 1).drop_last() =~= views.take(i as int));
            assert(views.take(i + 1).last() == elements@[i as int]@);
        }
        match &elements[i].attr {
            Some(href) => {
                let link = Link { name: elements[i].text.clone(), href: href.clone() };
                proof {
                    lemma_link_views_push(links@, link);
                }
                links.push(link);
            },
            None => {},
        }
        i = i + 1;
    }
    proof {
        assert(views.take(i as int) =~= views);
    }
    links
}

/// The name under which a city is kept: see `normalized_name`.
pub fn normalize_name(display: &str) -> (name: String)
    ensures
        name@ == normalized_name(display@),
{
    let chars = chars_of(display);
    let separator = chars_of(NAME_SEPARATOR);
    let end: usize = match find(&chars, &separator) {
        Some(at) => at,
        None => chars.len(),
    };
    proof {
        crate::text::lemma_first_occurrence(chars@, separator@, 0);
        assert(chars@.subrange(0, end as int) =~= chars@.take(end as int));
        assert(chars@.take(chars@.len() as int) =~= chars@);
    }
    let (from, to) = trim_bounds(&chars, 0, end);
    display.substring_char(from, to).to_owned()
}

/// Puts `link` in the place of the first of `links` of the same name, or at
/// the end where there is none.
pub fn upsert(links: &mut Vec<Link>, link: Link)
    ensures
        link_views(final(links)@) == upserted(link_views(old(links)@), link@),
{
    let ghost names = link_names(link_views(links@));
    let mut i: usize = 0;
    proof {
        assert(names.take(0) =~= Seq::<Seq<char>>::empty());
    }
    while i < links.len()
        invariant
            i <= links.len(),
            links@ == old(links)@,
            names == link_names(link_views(links@)),
            position(names.take(i as int), link@.name) is None,
        decreases links.len() - i,
    {
        proof {
            assert(names.take(i + 1).drop_last() =~= names.take(i as int));
            assert(names.take(i + 1).last() == links@[i as int].name@);
        }
        if same_text(links[i].name.as_str(), link.name.as_str()) {
            proof {
                super::lemma_position_extends(names, link@.name, i + 1);
                assert(link_views(links@.update(i as int, link)) =~= link_views(links@).update(
                    i as int,
                    link@,
                ));
            }
            links.set(i, link);
            return ;
        }
        i = i + 1;
    }
    proof {
        assert(names.take(i as int) =~= names);
        lemma_link_views_push(links@, link);
    }
    links.push(link);
}

/// The cities that `links` lead to: see `city_links`.
pub fn cities_among(links: &Vec<Link>) -> (cities: Vec<Link>)
    ensures
        link_views(cities@) == city_links(link_views(links@)),
{
    let ghost views = link_views(links@);
    let mut cities: Vec<Link> = Vec::new();
    let mut i: usize = 0;
    proof {
        assert(views.take(0) =~= Seq::<LinkView>::empty());
        assert(link_views(cities@) =~= Seq::<LinkView>::empty());
    }
    while i < links.len()
        invariant
            i <= links.len(),
            views == link_views(links@),
            link_views(cities@) == city_links(views.take(i as int)),
        decreases links.len() - i,
    {
        proof {
            assert(views.take(i + 1).drop_last() =~= views.take(i as int));
            assert(views.take(i + 1).last() == links@[i as int]@);
        }
        let city = Link {
            name: normalize_name(links[i].name.as_str()),
            href: links[i].href.clone(),
        };
        upsert(&mut cities, city);
        i = i + 1;
    }
    proof {
        assert(views.take(i as int) =~= views);
    }
    cities
}

/// `names` without repetitions: see `distinct`.
pub fn distinct_texts(names: &Vec<String>) -> (out: Vec<String>)
    ensures
        texts(out@) == distinct(texts(names@)),
{
    let ghost views = texts(names@);
    let mut out: Vec<String> = Vec::new();
    let mut i: usize = 0;
    proof {
        assert(views.take(0) =~= Seq::<Seq<char>>::empty());
        assert(texts(out@) =~= Seq::<Seq<char>>::empty());
    }
    while i < names.len()
        invariant
            i <= names.len(),
            views == texts(names@),
            texts(out@) == distinct(views.take(i as int)),
        decreases names.len() - i,
    {
        proof {
            assert(views.take(i + 1).drop_last() =~= views.take(i as int));
            assert(views.take(i + 1).last() == names@[i as int]@);
        }
        let mut seen: bool = false;
        let mut j: usize = 0;
        while j < out.len() && !seen
            invariant
                j <= out.len(),
                i < names.len(),
                seen ==> texts(out@).contains(names@[i as int]@),
                !seen ==> forall|k: int| 0 <= k < j ==> texts(out@)[k] != names@[i as int]@,
            decreases out.len() - j + if seen { 0int } else { 1int },
        {
            if same_text(out[j].as_str(), names[i].as_str()) {
                proof {
                    assert(texts(out@)[j as int] == names@[i as int]@);
                }
                seen = true;
            } else {
                j = j + 1;
            }
        }
        if !seen {
            let name = names[i].clone();
            proof {
                assert(texts(out@.push(name)) =~= texts(out@).push(name@));
            }
            out.push(name);
        }
        i = i + 1;
    }
    proof {
        assert(views.take(i as int) =~= views);
    }
    out
}

/// The texts of `elements`, each without its no-break spaces: see
/// `cleaned_texts`. It fails where the pattern that matches a no-break space
/// is refused and there is a text to clean.
pub fn clean_texts(elements: &Vec<Element>) -> (cleaned: Result<Vec<String>, CrawlError>)
    ensures
        match cleaned {
            Ok(out) => texts(out@) == cleaned_texts(element_views(elements@)) && (elements.len() > 0
                ==> pattern_compiles(NBSP_PATTERN@)),
            Err(error) => error == CrawlError::PatternFailed && elements.len() > 0
                && !pattern_compiles(NBSP_PATTERN@),
        },
{
    let mut out: Vec<String> = Vec::new();
    let mut i: usize = 0;
    while i < elements.len()
        invariant
            i <= elements.len(),
            out.len() == i,
            i > 0 ==> pattern_compiles(NBSP_PATTERN@),
            forall|k: int| 0 <= k < i ==> (#[trigger] out@[k])@ == without_char(elements@[k].text@, NBSP),
        decreases elements.len() - i,
    {
        match replace_all(NBSP_PATTERN, elements[i].text.as_str(), "") {
            Ok(text) => {
                proof {
                    reveal_strlit("");
                }
                out.push(text);
            },
            Err(_) => {
                return Err(CrawlError::PatternFailed);
            },
        }
        i = i + 1;
    }
    proof {
        assert(texts(out@) =~= cleaned_texts(element_views(elements@)));
    }
    Ok(out)
}

/// The selectors that the crawler reads pages with are plain.
proof fn lemma_selectors_plain()
    ensures
        plain(CATEGORY_SELECTOR@),
        plain(DEAL_TYPE_SELECTOR@),
{
    reveal_strlit("a.a_category");
    reveal_strlit("select.filter_sel.l100 > option");
    reveal_with_fuel(free_below, 32);
    lemma_plain(CATEGORY_SELECTOR@);
    lemma_plain(DEAL_TYPE_SELECTOR@);
}

/// What can be read of what was fetched: see `legible`.
pub fn legible_page(page: Option<String>) -> (read: Option<String>)
    ensures
        text_view(read) == legible(text_view(page)),
{
    match page {
        Some(body) => if is_readable(body.as_str()) {
            Some(body)
        } else {
            None
        },
        None => None,
    }
}

impl FlatsParser {
    /// The address of `path` on the site.
    pub fn url_of(&self, path: &str) -> (url: String)
        ensures
            url@ == self@.url_base + path@,
    {
        let mut url = self.url_base.clone();
        url.append(path);
        url
    }

    /// The crawl fails with `error`.
    fn halt(&mut self, error: CrawlError) -> (step: CrawlStep)
        ensures
            final(self)@ == halted(old(self)@, error).0,
            step@ == halted(old(self)@, error).1,
    {
        self.crawl.stage = Stage::Failed(error);
        CrawlStep::Failed(error)
    }

    /// Turns to the first of the cities still to visit, or ends the crawl.
    fn visit_city(&mut self) -> (step: CrawlStep)
        ensures
            final(self)@ == city_visit(old(self)@).0,
            step@ == city_visit(old(self)@).1,
    {
        if self.crawl.cities.len() == 0 {
            let mut built: Vec<City> = Vec::new();
            core::mem::swap(&mut built, &mut self.crawl.built);
            self.cities = built;
            self.crawl.stage = Stage::Finished;
            proof {
                assert(self@.crawl.built =~= Seq::<CityView>::empty());
            }
            CrawlStep::Finished
        } else {
            self.crawl.stage = Stage::City;
            let url = self.url_of(self.crawl.cities[0].href.as_str());
            CrawlStep::Fetch(url)
        }
    }

    /// Leaves the city being visited out, and turns to the next.
    fn skip_city(&mut self) -> (step: CrawlStep)
        ensures
            final(self)@ == city_skipped(old(self)@).0,
            step@ == city_skipped(old(self)@).1,
    {
        if self.crawl.cities.len() > 0 {
            self.crawl.cities.remove(0);
            self.crawl.districts.clear();
            self.crawl.found.clear();
            proof {
                assert(self@.crawl.cities =~= old(self)@.crawl.cities.drop_first());
                assert(self@.crawl.districts =~= Seq::<LinkView>::empty());
                assert(self@.crawl.found =~= Seq::<DistrictView>::empty());
            }
        }
        self.visit_city()
    }

    /// Puts the city being visited among the cities assembled, and turns to
    /// the next.
    fn close_city(&mut self) -> (step: CrawlStep)
        ensures
            final(self)@ == city_closed(old(self)@).0,
            step@ == city_closed(old(self)@).1,
    {
        if self.crawl.cities.len() > 0 {
            let link = self.crawl.cities.remove(0);
            let mut found: Vec<CategoryStructure> = Vec::new();
            core::mem::swap(&mut found, &mut self.crawl.found);
            let city = City { name: link.name, href: link.href, districts: found };
            proof {
                assert(link@ == old(self)@.crawl.cities[0]);
                super::lemma_city_views_push(self.crawl.built@, city);
            }
            self.crawl.built.push(city);
            self.crawl.districts.clear();
            proof {
                assert(self@.crawl.cities =~= old(self)@.crawl.cities.drop_first());
                assert(self@.crawl.districts =~= Seq::<LinkView>::empty());
                assert(self@.crawl.found =~= Seq::<DistrictView>::empty());
            }
        }
        self.visit_city()
    }

    /// Turns to the first of the districts still to visit, or closes the
    /// city.
    fn visit_district(&mut self) -> (step: CrawlStep)
        ensures
            final(self)@ == district_visit(old(self)@).0,
            step@ == district_visit(old(self)@).1,
    {
        if self.crawl.districts.len() == 0 {
            self.close_city()
        } else {
            self.crawl.stage = Stage::Deals;
            let url = self.url_of(self.crawl.districts[0].href.as_str());
            CrawlStep::Fetch(url)
        }
    }

    /// Begins a crawl. The pattern that cleans deal types is tried before
    /// any page is asked for.
    fn begin(&mut self) -> (step: CrawlStep)
        ensures
            final(self)@ == begun(old(self)@).0,
            step@ == begun(old(self)@).1,
    {
        self.crawl = Crawl::new();
        self.crawl.stage = Stage::Root;
        match replace_all(NBSP_PATTERN, "", "") {
            Ok(_) => CrawlStep::Fetch(self.url_of(ROOT_PATH)),
            Err(_) => self.halt(CrawlError::PatternFailed),
        }
    }

    /// Takes the root page, if it has come.
    fn read_root(&mut self, page: Option<String>) -> (step: CrawlStep)
        requires
            page matches Some(body) ==> readable(body@),
        ensures
            final(self)@ == root_read(old(self)@, text_view(page)).0,
            step@ == root_read(old(self)@, text_view(page)).1,
    {
        let body = match page {
            Some(body) => body,
            None => {
                return self.halt(CrawlError::RootFetchFailed);
            },
        };
        proof {
            lemma_selectors_plain();
        }
        let elements = match select_elements(body.as_str(), CATEGORY_SELECTOR, LINK_ATTR) {
            Ok(elements) => elements,
            Err(_) => {
                return self.halt(CrawlError::SelectorFailed);
            },
        };
        let links = links_among(&elements);
        self.crawl.cities = cities_among(&links);
        self.visit_city()
    }

    /// Takes the page of the city being visited, if it has come.
    fn read_city(&mut self, page: Option<String>) -> (step: CrawlStep)
        requires
            page matches Some(body) ==> readable(body@),
        ensures
            final(self)@ == city_read(old(self)@, text_view(page)).0,
            step@ == city_read(old(self)@, text_view(page)).1,
    {
        let body = match page {
            Some(body) => body,
            None => {
                return self.skip_city();
            },
        };
        proof {
            lemma_selectors_plain();
        }
        let elements = match select_elements(body.as_str(), CATEGORY_SELECTOR, LINK_ATTR) {
            Ok(elements) => elements,
            Err(_) => {
                return self.halt(CrawlError::SelectorFailed);
            },
        };
        self.crawl.districts = links_among(&elements);
        self.crawl.found.clear();
        proof {
            assert(self@.crawl.found =~= Seq::<DistrictView>::empty());
        }
        self.visit_district()
    }

    /// Takes the page of the district being visited, if it has come.
    fn read_deals(&mut self, page: Option<String>) -> (step: CrawlStep)
        requires
            page matches Some(body) ==> readable(body@),
        ensures
            final(self)@ == deals_read(old(self)@, text_view(page)).0,
            step@ == deals_read(old(self)@, text_view(page)).1,
    {
        let body = match page {
            Some(body) => body,
            None => {
                return self.halt(CrawlError::DealTypeFetchFailed);
            },
        };
        proof {
            lemma_selectors_plain();
        }
        let elements = match select_elements(body.as_str(), DEAL_TYPE_SELECTOR, VALUE_ATTR) {
            Ok(elements) => elements,
            Err(_) => {
                return self.halt(CrawlError::SelectorFailed);
            },
        };
        if replace_all(NBSP_PATTERN, "", "").is_err() {
            return self.halt(CrawlError::PatternFailed);
        }
        let cleaned = match clean_texts(&elements) {
            Ok(cleaned) => cleaned,
            Err(error) => {
                return self.halt(error);
            },
        };
        if self.crawl.districts.len() > 0 {
            let link = self.crawl.districts.remove(0);
            let district = CategoryStructure {
                name: link.name,
                href: link.href,
                deal_types: distinct_texts(&cleaned),
            };
            proof {
                assert(link@ == old(self)@.crawl.districts[0]);
                assert(self@.crawl.districts =~= old(self)@.crawl.districts.drop_first());
            }
            insert_district(&mut self.crawl.found, district);
        }
        self.visit_district()
    }

    /// Takes the crawl one step on: says what to do next, given what
    /// happened. To crawl, hand in `CrawlEvent::Begin`; then, as long as the
    /// step is `Fetch`, fetch that address and hand in the outcome.
    ///
    /// A city whose page cannot be fetched is left out, and the crawl goes
    /// on; without the root page or the page of a district, the crawl
    /// fails. A page that is too long to be read counts as one that could
    /// not be fetched. The catalog changes only when a crawl ends as
    /// `Finished`.
    pub fn parse_global_data(&mut self, event: CrawlEvent) -> (step: CrawlStep)
        ensures
            final(self)@ == advance(old(self)@, event@).0,
            step@ == advance(old(self)@, event@).1,
            super::sound(old(self)@) ==> super::sound(final(self)@),
    {
        proof {
            if super::sound(self@) {
                super::runs::lemma_advance_orderly(self@, event@);
                super::runs::lemma_catalog_kept_until_finished(self@, event@);
            }
        }
        match event {
            CrawlEvent::Begin => self.begin(),
            CrawlEvent::Fetched(outcome) => {
                let page = legible_page(outcome.into_page());
                match self.crawl.stage {
                    Stage::Root => self.read_root(page),
                    Stage::City => self.read_city(page),
                    Stage::Deals => self.read_deals(page),
                    Stage::Idle => CrawlStep::Idle,
                    Stage::Finished => CrawlStep::Finished,
                    Stage::Failed(error) => CrawlStep::Failed(error),
                }
            },
        }
    }
}

/// The characters of a text that may be missing.
pub open spec fn text_view(text: Option<String>) -> Option<Seq<char>> {
    match text {
        Some(t) => Some(t@),
        None => None,
    }
}

} // verus!
