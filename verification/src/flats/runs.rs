//! Whole crawls: what the crawler's rule comes to when it is fed the pages
//! of a site, and what holds of every such run.

use super::crawl::{
    advance, begun, city_closed, city_opened, city_skipped, city_visit, district_closed, legible,
    link_names, links_of, root_opened, CrawlView, EventView, LinkView, Stage, StepView,
};
use super::links::{lemma_city_links, lemma_distinct};
use super::{city_names, sound_districts, well_formed, CityView, ParserView};
use vstd::prelude::*;

verus! {

/// What a fetch of `url` comes to on a site that serves the pages of
/// `site`, and nothing else.
pub open spec fn served(site: Map<Seq<char>, Seq<char>>, url: Seq<char>) -> Option<Seq<char>> {
    if site.dom().contains(url) {
        Some(site[url])
    } else {
        None
    }
}

/// The crawl goes on from `p`, which has asked for `step`, against `site`,
/// for at most `turns` fetches.
pub open spec fn crawled(
    p: ParserView,
    step: StepView,
    site: Map<Seq<char>, Seq<char>>,
    turns: nat,
) -> (ParserView, StepView)
    decreases turns,
{
    match step {
        StepView::Fetch(url) => if turns == 0 {
            (p, step)
        } else {
            let next = advance(p, EventView::Fetched(served(site, url)));
            crawled(next.0, next.1, site, (turns - 1) as nat)
        },
        _ => (p, step),
    }
}

/// A crawl from its beginning, against `site`, for at most `turns` fetches.
pub open spec fn crawl(p: ParserView, site: Map<Seq<char>, Seq<char>>, turns: nat) -> (
    ParserView,
    StepView,
) {
    let start = advance(p, EventView::Begin);
    crawled(start.0, start.1, site, turns)
}

/// Two parsers are alike where they crawl the same site and have come
/// equally far, and hold the same catalog if the crawl is complete.
pub open spec fn alike(a: ParserView, b: ParserView) -> bool {
    &&& a.url_base == b.url_base
    &&& a.crawl == b.crawl
    &&& a.crawl.stage is Finished ==> a.cities == b.cities
}

/// Parsers that are alike stay alike, and ask for the same step.
pub proof fn lemma_advance_alike(a: ParserView, b: ParserView, event: EventView)
    requires
        a.url_base == b.url_base,
        event is Begin || alike(a, b),
    ensures
        alike(advance(a, event).0, advance(b, event).0),
        advance(a, event).1 == advance(b, event).1,
{
}

proof fn lemma_crawled_alike(
    a: ParserView,
    b: ParserView,
    step: StepView,
    site: Map<Seq<char>, Seq<char>>,
    turns: nat,
)
    requires
        alike(a, b),
    ensures
        alike(crawled(a, step, site, turns).0, crawled(b, step, site, turns).0),
        crawled(a, step, site, turns).1 == crawled(b, step, site, turns).1,
    decreases turns,
{
    if let StepView::Fetch(url) = step {
        if turns > 0 {
            let event = EventView::Fetched(served(site, url));
            lemma_advance_alike(a, b, event);
            lemma_crawled_alike(
                advance(a, event).0,
                advance(b, event).0,
                advance(a, event).1,
                site,
                (turns - 1) as nat,
            );
        }
    }
}

/// A crawl is repeatable: against the same site, two crawls end alike,
/// whatever the parsers held before, and where they end complete they leave
/// the same catalog.
pub proof fn lemma_crawl_repeatable(
    p: ParserView,
    q: ParserView,
    site: Map<Seq<char>, Seq<char>>,
    turns: nat,
)
    requires
        p.url_base == q.url_base,
    ensures
        crawl(p, site, turns).1 == crawl(q, site, turns).1,
        crawl(p, site, turns).1 == StepView::Finished ==> crawl(p, site, turns).0.cities == crawl(
            q,
            site,
            turns,
        ).0.cities,
{
    lemma_advance_alike(p, q, EventView::Begin);
    lemma_crawled_alike(
        advance(p, EventView::Begin).0,
        advance(q, EventView::Begin).0,
        advance(p, EventView::Begin).1,
        site,
        turns,
    );
    lemma_crawled_finished(advance(p, EventView::Begin).0, advance(p, EventView::Begin).1, site, turns);
}

/// Whether the stage agrees with the step: a parser that says `Finished`
/// is in the stage `Finished`.
pub open spec fn in_step(p: ParserView, step: StepView) -> bool {
    step == StepView::Finished ==> p.crawl.stage is Finished
}

proof fn lemma_advance_in_step(p: ParserView, event: EventView)
    ensures
        in_step(advance(p, event).0, advance(p, event).1),
{
}

proof fn lemma_crawled_finished(
    p: ParserView,
    step: StepView,
    site: Map<Seq<char>, Seq<char>>,
    turns: nat,
)
    requires
        in_step(p, step),
    ensures
        in_step(crawled(p, step, site, turns).0, crawled(p, step, site, turns).1),
    decreases turns,
{
    if let StepView::Fetch(url) = step {
        if turns > 0 {
            let event = EventView::Fetched(served(site, url));
            lemma_advance_in_step(p, event);
            lemma_crawled_finished(
                advance(p, event).0,
                advance(p, event).1,
                site,
                (turns - 1) as nat,
            );
        }
    }
}

/// The cities that a parser has assembled: the catalog where the crawl is
/// complete, else the cities that are complete so far.
pub open spec fn assembled(p: ParserView) -> Seq<CityView> {
    if p.crawl.stage is Finished {
        p.cities
    } else {
        p.crawl.built
    }
}

/// Whether a city is being visited.
pub open spec fn visiting(stage: Stage) -> bool {
    stage is City || stage is Deals
}

/// `name` is out of a crawl where no city assembled has it and no city
/// still to visit has it, and the root page is behind.
pub open spec fn left_out(p: ParserView, name: Seq<char>) -> bool {
    &&& !(p.crawl.stage is Root)
    &&& !city_names(assembled(p)).contains(name)
    &&& visiting(p.crawl.stage) ==> !link_names(p.crawl.cities).contains(name)
}

proof fn lemma_names_push(cities: Seq<CityView>, city: CityView)
    ensures
        city_names(cities.push(city)) == city_names(cities).push(city.name),
{
    assert(city_names(cities.push(city)) =~= city_names(cities).push(city.name));
}

proof fn lemma_names_drop_first(links: Seq<LinkView>)
    requires
        links.len() > 0,
    ensures
        link_names(links.drop_first()) == link_names(links).drop_first(),
{
    assert(link_names(links.drop_first()) =~= link_names(links).drop_first());
}

proof fn lemma_visit_keeps(p: ParserView, base: Seq<CityView>, name: Seq<char>)
    requires
        !(p.crawl.stage is Root),
        base.is_prefix_of(p.crawl.built),
        !city_names(p.crawl.built).contains(name),
        !link_names(p.crawl.cities).contains(name),
    ensures
        left_out(city_visit(p).0, name),
        base.is_prefix_of(assembled(city_visit(p).0)),
{
}

proof fn lemma_skip_keeps(p: ParserView, base: Seq<CityView>, name: Seq<char>)
    requires
        !(p.crawl.stage is Root),
        base.is_prefix_of(p.crawl.built),
        !city_names(p.crawl.built).contains(name),
        p.crawl.cities.len() > 0 ==> !link_names(p.crawl.cities).drop_first().contains(name),
    ensures
        left_out(city_skipped(p).0, name),
        base.is_prefix_of(assembled(city_skipped(p).0)),
{
    if p.crawl.cities.len() > 0 {
        lemma_names_drop_first(p.crawl.cities);
        let q = ParserView {
            crawl: CrawlView {
                cities: p.crawl.cities.drop_first(),
                districts: Seq::empty(),
                found: Seq::empty(),
                ..p.crawl
            },
            ..p
        };
        lemma_visit_keeps(q, base, name);
    } else {
        assert(link_names(p.crawl.cities) =~= Seq::<Seq<char>>::empty());
        lemma_visit_keeps(p, base, name);
    }
}

proof fn lemma_close_keeps(p: ParserView, base: Seq<CityView>, name: Seq<char>)
    requires
        !(p.crawl.stage is Root),
        base.is_prefix_of(p.crawl.built),
        !city_names(p.crawl.built).contains(name),
        !link_names(p.crawl.cities).contains(name),
    ensures
        left_out(city_closed(p).0, name),
        base.is_prefix_of(assembled(city_closed(p).0)),
{
    if p.crawl.cities.len() > 0 {
        lemma_names_drop_first(p.crawl.cities);
        let city = CityView {
            name: p.crawl.cities[0].name,
            href: p.crawl.cities[0].href,
            districts: p.crawl.found,
        };
        let q = ParserView {
            crawl: CrawlView {
                cities: p.crawl.cities.drop_first(),
                districts: Seq::empty(),
                found: Seq::empty(),
                built: p.crawl.built.push(city),
                ..p.crawl
            },
            ..p
        };
        lemma_names_push(p.crawl.built, city);
        assert(link_names(p.crawl.cities)[0] == city.name);
        assert(forall|i: int|
            0 <= i < link_names(q.crawl.cities).len() ==> link_names(q.crawl.cities)[i]
                == link_names(p.crawl.cities)[i + 1]);
        lemma_visit_keeps(q, base, name);
    } else {
        lemma_visit_keeps(p, base, name);
    }
}

/// A name that is out of a crawl stays out of it, and the cities assembled
/// stay as they are, whatever page comes next.
pub proof fn lemma_advance_keeps(
    p: ParserView,
    page: Option<Seq<char>>,
    base: Seq<CityView>,
    name: Seq<char>,
)
    requires
        left_out(p, name),
        base.is_prefix_of(assembled(p)),
    ensures
        left_out(advance(p, EventView::Fetched(page)).0, name),
        base.is_prefix_of(assembled(advance(p, EventView::Fetched(page)).0)),
{
    match p.crawl.stage {
        Stage::City => {
            match legible(page) {
                None => {
                    if p.crawl.cities.len() > 0 {
                        assert(forall|i: int|
                            0 <= i < link_names(p.crawl.cities).drop_first().len() ==> link_names(
                                p.crawl.cities,
                            ).drop_first()[i] == link_names(p.crawl.cities)[i + 1]);
                    }
                    lemma_skip_keeps(p, base, name);
                },
                Some(body) => {
                    let q = city_opened(p, body);
                    if q.crawl.districts.len() == 0 {
                        lemma_close_keeps(q, base, name);
                    }
                },
            }
        },
        Stage::Deals => {
            match legible(page) {
                None => {},
                Some(body) => {
                    let q = district_closed(p, body);
                    if q.crawl.districts.len() == 0 {
                        lemma_close_keeps(q, base, name);
                    }
                },
            }
        },
        _ => {},
    }
}

proof fn lemma_crawled_keeps(
    p: ParserView,
    step: StepView,
    site: Map<Seq<char>, Seq<char>>,
    turns: nat,
    base: Seq<CityView>,
    name: Seq<char>,
)
    requires
        left_out(p, name),
        base.is_prefix_of(assembled(p)),
    ensures
        left_out(crawled(p, step, site, turns).0, name),
        base.is_prefix_of(assembled(crawled(p, step, site, turns).0)),
    decreases turns,
{
    if let StepView::Fetch(url) = step {
        if turns > 0 {
            let page = served(site, url);
            lemma_advance_keeps(p, page, base, name);
            let next = advance(p, EventView::Fetched(page));
            lemma_crawled_keeps(next.0, next.1, site, (turns - 1) as nat, base, name);
        }
    }
}

/// A city whose page cannot be fetched, or is too long to be read, is left
/// out, and nothing else is lost: where the crawl goes on to its end, the
/// catalog holds no city of that name, and begins with the cities that were
/// complete before.
///
/// The names of the cities, those complete and those still to visit, are
/// taken to be distinct, as they are in every crawl (see
/// `lemma_advance_orderly`).
pub proof fn lemma_failed_city_left_out(
    p: ParserView,
    site: Map<Seq<char>, Seq<char>>,
    turns: nat,
)
    requires
        p.crawl.stage is City,
        p.crawl.cities.len() > 0,
        (city_names(p.crawl.built) + link_names(p.crawl.cities)).no_duplicates(),
        legible(served(site, p.url_base + p.crawl.cities[0].href)) is None,
    ensures
        ({
            let end = crawled(
                p,
                StepView::Fetch(p.url_base + p.crawl.cities[0].href),
                site,
                turns,
            );
            end.1 == StepView::Finished ==> !city_names(end.0.cities).contains(
                p.crawl.cities[0].name,
            ) && p.crawl.built.is_prefix_of(end.0.cities)
        }),
{
    let name = p.crawl.cities[0].name;
    let url = p.url_base + p.crawl.cities[0].href;
    let step = StepView::Fetch(url);
    if turns > 0 {
        let all = city_names(p.crawl.built) + link_names(p.crawl.cities);
        let k = city_names(p.crawl.built).len() as int;
        assert(all[k] == name);
        assert forall|i: int| 0 <= i < city_names(p.crawl.built).len() implies city_names(
            p.crawl.built,
        )[i] != name by {
            assert(all[i] == city_names(p.crawl.built)[i]);
        }
        assert forall|i: int|
            0 <= i < link_names(p.crawl.cities).drop_first().len() implies link_names(
            p.crawl.cities,
        ).drop_first()[i] != name by {
            assert(all[k + i + 1] == link_names(p.crawl.cities)[i + 1]);
        }
        lemma_skip_keeps(p, p.crawl.built, name);
        let event = EventView::Fetched(served(site, url));
        let next = advance(p, event);
        assert(next == city_skipped(p));
        lemma_crawled_keeps(next.0, next.1, site, (turns - 1) as nat, p.crawl.built, name);
        lemma_advance_in_step(p, event);
        lemma_crawled_finished(next.0, next.1, site, (turns - 1) as nat);
    }
}

/// A crawl is orderly where the names of its cities, those complete and
/// those still to visit, are distinct, the districts of each city are
/// sound, nothing is complete before the root page has come, and no
/// district is pending or found while the root page or the page of a city
/// is awaited.
pub open spec fn orderly(p: ParserView) -> bool {
    &&& (city_names(p.crawl.built) + link_names(p.crawl.cities)).no_duplicates()
    &&& forall|i: int|
        0 <= i < p.crawl.built.len() ==> sound_districts((#[trigger] p.crawl.built[i]).districts)
    &&& sound_districts(p.crawl.found)
    &&& p.crawl.stage is Root ==> p.crawl.built.len() == 0
    &&& p.crawl.stage is Root || p.crawl.stage is City ==> p.crawl.districts.len() == 0
        && p.crawl.found.len() == 0
}

proof fn lemma_visit_orderly(p: ParserView)
    requires
        orderly(p),
        !(p.crawl.stage is Root) || p.crawl.built.len() == 0,
        p.crawl.cities.len() > 0 ==> p.crawl.districts.len() == 0 && p.crawl.found.len() == 0,
    ensures
        orderly(city_visit(p).0),
        city_visit(p).1 == StepView::Finished ==> well_formed(city_visit(p).0.cities),
{
    if p.crawl.cities.len() == 0 {
        assert(city_names(p.crawl.built) + link_names(p.crawl.cities) =~= city_names(p.crawl.built));
        let q = city_visit(p).0;
        assert(city_names(q.crawl.built) + link_names(q.crawl.cities) =~= Seq::<Seq<char>>::empty());
    }
}

proof fn lemma_close_orderly(p: ParserView)
    requires
        orderly(p),
        !(p.crawl.stage is Root),
    ensures
        orderly(city_closed(p).0),
        city_closed(p).1 == StepView::Finished ==> well_formed(city_closed(p).0.cities),
{
    if p.crawl.cities.len() > 0 {
        let city = CityView {
            name: p.crawl.cities[0].name,
            href: p.crawl.cities[0].href,
            districts: p.crawl.found,
        };
        let q = ParserView {
            crawl: CrawlView {
                cities: p.crawl.cities.drop_first(),
                districts: Seq::empty(),
                found: Seq::empty(),
                built: p.crawl.built.push(city),
                ..p.crawl
            },
            ..p
        };
        lemma_names_push(p.crawl.built, city);
        lemma_names_drop_first(p.crawl.cities);
        assert(city_names(q.crawl.built) + link_names(q.crawl.cities) =~= city_names(p.crawl.built)
            + link_names(p.crawl.cities));
        lemma_visit_orderly(q);
    } else {
        lemma_visit_orderly(p);
    }
}

proof fn lemma_skip_orderly(p: ParserView)
    requires
        orderly(p),
        !(p.crawl.stage is Root),
    ensures
        orderly(city_skipped(p).0),
        city_skipped(p).1 == StepView::Finished ==> well_formed(city_skipped(p).0.cities),
{
    if p.crawl.cities.len() > 0 {
        let q = ParserView {
            crawl: CrawlView {
                cities: p.crawl.cities.drop_first(),
                districts: Seq::empty(),
                found: Seq::empty(),
                ..p.crawl
            },
            ..p
        };
        lemma_names_drop_first(p.crawl.cities);
        let before = city_names(p.crawl.built) + link_names(p.crawl.cities);
        let after = city_names(q.crawl.built) + link_names(q.crawl.cities);
        let k = city_names(p.crawl.built).len() as int;
        assert forall|i: int, j: int| 0 <= i < after.len() && 0 <= j < after.len() && i != j implies after[i]
            != after[j] by {
            let i0: int = if i < k { i } else { i + 1 };
            let j0: int = if j < k { j } else { j + 1 };
            assert(after[i] == before[i0]);
            assert(after[j] == before[j0]);
        }
        lemma_visit_orderly(q);
    } else {
        lemma_visit_orderly(p);
    }
}

/// Every step keeps a crawl orderly, a crawl that begins is orderly, and a
/// crawl that ends complete leaves a well-formed catalog.
pub proof fn lemma_advance_orderly(p: ParserView, event: EventView)
    requires
        event is Begin || orderly(p),
    ensures
        orderly(advance(p, event).0),
        advance(p, event).1 == StepView::Finished && !(p.crawl.stage is Finished && event
            is Fetched) ==> well_formed(advance(p, event).0.cities),
{
    match event {
        EventView::Begin => {
            let q = begun(p).0;
            assert(city_names(q.crawl.built) + link_names(q.crawl.cities) =~= Seq::<
                Seq<char>,
            >::empty());
        },
        EventView::Fetched(page) => {
            match p.crawl.stage {
                Stage::Root => {
                    if let Some(body) = legible(page) {
                        lemma_city_links(
                            links_of(
                                super::markup::selected(
                                    body,
                                    super::crawl::CATEGORY_SELECTOR@,
                                    super::crawl::LINK_ATTR@,
                                ),
                            ),
                        );
                        let q = root_opened(p, body);
                        assert(city_names(q.crawl.built) =~= Seq::<Seq<char>>::empty());
                        assert(city_names(q.crawl.built) + link_names(q.crawl.cities)
                            =~= link_names(q.crawl.cities));
                        lemma_visit_orderly(q);
                    }
                },
                Stage::City => {
                    match legible(page) {
                        None => {
                            lemma_skip_orderly(p);
                        },
                        Some(body) => {
                            let q = city_opened(p, body);
                            if q.crawl.districts.len() == 0 {
                                lemma_close_orderly(q);
                            }
                        },
                    }
                },
                Stage::Deals => {
                    if let Some(body) = legible(page) {
                        lemma_distinct(
                            super::crawl::cleaned_texts(
                                super::markup::selected(
                                    body,
                                    super::crawl::DEAL_TYPE_SELECTOR@,
                                    super::crawl::VALUE_ATTR@,
                                ),
                            ),
                        );
                        let q = district_closed(p, body);
                        if q.crawl.districts.len() == 0 {
                            lemma_close_orderly(q);
                        }
                    }
                },
                _ => {},
            }
        },
    }
}

/// The catalog changes only with the step that completes a crawl.
pub proof fn lemma_catalog_kept_until_finished(p: ParserView, event: EventView)
    ensures
        advance(p, event).1 != StepView::Finished ==> advance(p, event).0.cities == p.cities,
        advance(p, event).0.url_base == p.url_base,
{
}

/// Without the root page, or the page of a district, the crawl fails and
/// the catalog stays as it is; so too where the page is too long to be
/// read.
pub proof fn lemma_failed_page_fails_crawl(p: ParserView, page: Option<Seq<char>>)
    requires
        p.crawl.stage is Root || p.crawl.stage is Deals,
        legible(page) is None,
    ensures
        advance(p, EventView::Fetched(page)).0.cities == p.cities,
        p.crawl.stage is Root ==> advance(p, EventView::Fetched(page)).1 == StepView::Failed(
            super::crawl::CrawlError::RootFetchFailed,
        ),
        p.crawl.stage is Deals ==> advance(p, EventView::Fetched(page)).1 == StepView::Failed(
            super::crawl::CrawlError::DealTypeFetchFailed,
        ),
{
}

/// A crawl that has failed, or is complete, stays so until one begins.
pub proof fn lemma_settled_stays(p: ParserView, page: Option<Seq<char>>)
    requires
        !visiting(p.crawl.stage),
        !(p.crawl.stage is Root),
    ensures
        advance(p, EventView::Fetched(page)).0 == p,
        !(advance(p, EventView::Fetched(page)).1 is Fetch),
{
}

/// After a city whose page cannot be fetched, or is too long to be read,
/// an orderly crawl goes on as if the site had not listed that city.
pub proof fn lemma_failed_city_as_if_unlisted(
    p: ParserView,
    site: Map<Seq<char>, Seq<char>>,
    turns: nat,
)
    requires
        orderly(p),
        p.crawl.stage is City,
        p.crawl.cities.len() > 0,
        legible(served(site, p.url_base + p.crawl.cities[0].href)) is None,
    ensures
        ({
            let unlisted = city_visit(
                ParserView {
                    crawl: CrawlView { cities: p.crawl.cities.drop_first(), ..p.crawl },
                    ..p
                },
            );
            crawled(p, StepView::Fetch(p.url_base + p.crawl.cities[0].href), site, turns + 1)
                == crawled(unlisted.0, unlisted.1, site, turns)
        }),
{
    let unlisted = ParserView {
        crawl: CrawlView { cities: p.crawl.cities.drop_first(), ..p.crawl },
        ..p
    };
    let skipped = ParserView {
        crawl: CrawlView {
            cities: p.crawl.cities.drop_first(),
            districts: Seq::empty(),
            found: Seq::empty(),
            ..p.crawl
        },
        ..p
    };
    assert(p.crawl.districts =~= Seq::<LinkView>::empty());
    assert(p.crawl.found =~= Seq::<super::DistrictView>::empty());
    assert(skipped.crawl =~~= unlisted.crawl);
    assert(skipped == unlisted);
}

/// How much of a city is still to do: all of it while its page is awaited,
/// less once its districts are known.
pub open spec fn stage_rank(stage: Stage) -> nat {
    if stage is Deals {
        0
    } else {
        1
    }
}

/// A run that has ended stays as it is, however many fetches are allowed.
pub proof fn lemma_crawled_ended(
    p: ParserView,
    step: StepView,
    site: Map<Seq<char>, Seq<char>>,
    turns: nat,
    more: nat,
)
    requires
        !(crawled(p, step, site, turns).1 is Fetch),
    ensures
        crawled(p, step, site, turns + more) == crawled(p, step, site, turns),
    decreases turns,
{
    if let StepView::Fetch(url) = step {
        if turns > 0 {
            let next = advance(p, EventView::Fetched(served(site, url)));
            lemma_crawled_ended(next.0, next.1, site, (turns - 1) as nat, more);
        }
    }
}

/// Every run ends: from wherever a crawl stands, some number of fetches
/// takes it to its end, complete or failed.
pub proof fn lemma_crawled_ends(p: ParserView, step: StepView, site: Map<Seq<char>, Seq<char>>) -> (turns:
    nat)
    requires
        !(p.crawl.stage is Root),
    ensures
        !(crawled(p, step, site, turns).1 is Fetch),
    decreases p.crawl.cities.len(), stage_rank(p.crawl.stage), p.crawl.districts.len(),
{
    match step {
        StepView::Fetch(url) => {
            let page = served(site, url);
            let next = advance(p, EventView::Fetched(page));
            if next.1 is Fetch {
                if p.crawl.cities.len() > 0 {
                    assert(p.crawl.cities.drop_first().len() == p.crawl.cities.len() - 1);
                }
                if p.crawl.districts.len() > 0 {
                    assert(p.crawl.districts.drop_first().len() == p.crawl.districts.len() - 1);
                }
                let rest = lemma_crawled_ends(next.0, next.1, site);
                assert(crawled(p, step, site, rest + 1) == crawled(next.0, next.1, site, rest));
                rest + 1
            } else {
                assert(crawled(next.0, next.1, site, 0) == next);
                assert(crawled(p, step, site, 1) == crawled(next.0, next.1, site, 0));
                1
            }
        },
        _ => 0,
    }
}

/// Every crawl ends: some number of fetches takes a crawl from its
/// beginning to its end, complete or failed, and more fetches change
/// nothing.
pub proof fn lemma_crawl_ends(p: ParserView, site: Map<Seq<char>, Seq<char>>) -> (turns: nat)
    ensures
        !(crawl(p, site, turns).1 is Fetch),
        forall|longer: nat|
            longer >= turns ==> #[trigger] crawl(p, site, longer) == crawl(p, site, turns),
{
    let start = advance(p, EventView::Begin);
    let turns: nat = match start.1 {
        StepView::Fetch(url) => {
            let next = advance(start.0, EventView::Fetched(served(site, url)));
            lemma_crawled_ends(next.0, next.1, site) + 1
        },
        _ => 0,
    };
    assert forall|longer: nat| longer >= turns implies #[trigger] crawl(p, site, longer) == crawl(
        p,
        site,
        turns,
    ) by {
        lemma_crawled_ended(start.0, start.1, site, turns, (longer - turns) as nat);
    }
    turns
}

proof fn lemma_crawled_base(
    p: ParserView,
    step: StepView,
    site: Map<Seq<char>, Seq<char>>,
    turns: nat,
)
    ensures
        crawled(p, step, site, turns).0.url_base == p.url_base,
    decreases turns,
{
    if let StepView::Fetch(url) = step {
        if turns > 0 {
            let next = advance(p, EventView::Fetched(served(site, url)));
            lemma_crawled_base(next.0, next.1, site, (turns - 1) as nat);
        }
    }
}

/// Crawling twice changes nothing: a crawl, followed to its end, and a
/// second crawl of the same site from where the first ended, end in the
/// same way, and where they end complete they leave the same catalog.
pub proof fn lemma_crawl_twice(p: ParserView, site: Map<Seq<char>, Seq<char>>) -> (turns: nat)
    ensures
        ({
            let first = crawl(p, site, turns);
            let second = crawl(first.0, site, turns);
            &&& !(first.1 is Fetch)
            &&& second.1 == first.1
            &&& first.1 == StepView::Finished ==> second.0.cities == first.0.cities
        }),
{
    let turns = lemma_crawl_ends(p, site);
    let start = advance(p, EventView::Begin);
    lemma_crawled_base(start.0, start.1, site, turns);
    lemma_crawl_repeatable(p, crawl(p, site, turns).0, site, turns);
    turns
}

} // verus!
