use flats_bot::flats::crawl::{
    cities_among, clean_texts, distinct_texts, links_among, normalize_name, upsert, CrawlError,
    CrawlEvent, CrawlStep, FetchOutcome, Link,
};
use flats_bot::flats::markup::Element;
use flats_bot::flats::{CategoryStructure, City, FlatsParser};
use std::collections::HashMap;

const BASE: &str = "https://site.example";

const ROOT: &str = r#"<html><body>
<h4><a class="a_category" href="/flats/riga/">Riga and Pieriga</a></h4>
<h4><a class="a_category" href="/flats/jurmala/">Jurmala</a></h4>
<h4><a class="a_category">No link</a></h4>
<h4><a class="a_category" href="/flats/riga-new/">Riga</a></h4>
<a href="/other/">Other</a>
</body></html>"#;

const RIGA: &str = r#"<html><body>
<a class="a_category" href="/flats/riga/centre/">Centre</a>
<a class="a_category" href="/flats/riga/teika/">Teika</a>
<a class="a_category" href="/flats/riga/centre/">Centre</a>
<a class="other" href="/flats/riga/x/">X</a>
</body></html>"#;

const JURMALA: &str = r#"<html><body><p>nothing here</p></body></html>"#;

const CENTRE: &str = r#"<html><body><select class="filter_sel l100">
<option value="">All</option><option value="sell">Sell&nbsp;</option><option value="rent">&nbsp;Re&nbsp;nt</option><option>Sell</option>
</select><select class="other"><option>Swap</option></select></body></html>"#;

const TEIKA: &str = r#"<html><body><select class="filter_sel l100"></select></body></html>"#;

fn page(body: &str) -> FetchOutcome {
    FetchOutcome::Page { status: 200, body: body.to_string() }
}

fn site() -> HashMap<String, FetchOutcome> {
    let mut site = HashMap::new();
    site.insert(format!("{}/lv/real-estate/flats/", BASE), page(ROOT));
    site.insert(format!("{}/flats/riga-new/", BASE), page(RIGA));
    site.insert(format!("{}/flats/jurmala/", BASE), page(JURMALA));
    site.insert(format!("{}/flats/riga/centre/", BASE), page(CENTRE));
    site.insert(format!("{}/flats/riga/teika/", BASE), page(TEIKA));
    site
}

fn crawl(parser: &mut FlatsParser, site: &HashMap<String, FetchOutcome>) -> (CrawlStep, Vec<String>) {
    let mut asked = Vec::new();
    let mut step = parser.parse_global_data(CrawlEvent::Begin);
    loop {
        match step {
            CrawlStep::Fetch(url) => {
                let outcome = site.get(&url).cloned().unwrap_or(FetchOutcome::Unreachable);
                asked.push(url);
                step = parser.parse_global_data(CrawlEvent::Fetched(outcome));
            }
            other => return (other, asked),
        }
    }
}

fn strings(items: &[&str]) -> Vec<String> {
    items.iter().map(|s| s.to_string()).collect()
}

fn element(text: &str, attr: Option<&str>) -> Element {
    Element { text: text.to_string(), attr: attr.map(|s| s.to_string()) }
}

fn link(name: &str, href: &str) -> Link {
    Link { name: name.to_string(), href: href.to_string() }
}

fn riga() -> City {
    City {
        name: "Riga".to_string(),
        href: "/flats/riga-new/".to_string(),
        districts: vec![
            CategoryStructure {
                name: "Centre".to_string(),
                href: "/flats/riga/centre/".to_string(),
                deal_types: strings(&["All", "Sell", "Rent"]),
            },
            CategoryStructure {
                name: "Teika".to_string(),
                href: "/flats/riga/teika/".to_string(),
                deal_types: Vec::new(),
            },
        ],
    }
}

fn jurmala() -> City {
    City { name: "Jurmala".to_string(), href: "/flats/jurmala/".to_string(), districts: Vec::new() }
}

#[test]
fn links_among_keeps_elements_with_a_target() {
    let elements = vec![
        element("Riga", Some("/riga/")),
        element("No link", None),
        element("Jurmala", Some("")),
    ];
    assert_eq!(links_among(&elements), vec![link("Riga", "/riga/"), link("Jurmala", "")]);
    assert_eq!(links_among(&Vec::new()), Vec::<Link>::new());
}

#[test]
fn normalize_name_cuts_at_the_separator() {
    assert_eq!(normalize_name("Riga and Pieriga"), "Riga");
    assert_eq!(normalize_name("  Riga  and Pieriga and more "), "Riga");
    assert_eq!(normalize_name(" Jurmala "), "Jurmala");
    assert_eq!(normalize_name("Portland"), "Portland");
    assert_eq!(normalize_name("Sand and"), "Sand and");
    assert_eq!(normalize_name(" and x"), "");
    assert_eq!(normalize_name("Riga region"), "Riga region");
    assert_eq!(normalize_name(""), "");
}

#[test]
fn a_normalized_name_is_its_own_normalized_name() {
    for display in ["Riga and Pieriga", "  a  and b", " and ", "x and  and y", "plain", "", "  and", "a\tand b"] {
        let name = normalize_name(display);
        assert_eq!(normalize_name(&name), name);
        assert!(!name.contains(" and "));
        assert_eq!(name.trim_matches(|c| c == ' ' || c == '\t' || c == '\n' || c == '\r'), name);
    }
}

#[test]
fn upsert_overwrites_the_first_link_of_the_name() {
    let mut links = vec![link("a", "1"), link("b", "2"), link("a", "3")];
    upsert(&mut links, link("a", "4"));
    assert_eq!(links, vec![link("a", "4"), link("b", "2"), link("a", "3")]);
    upsert(&mut links, link("c", "5"));
    assert_eq!(links, vec![link("a", "4"), link("b", "2"), link("a", "3"), link("c", "5")]);
}

#[test]
fn cities_among_keeps_the_first_place_and_the_last_link() {
    let links = vec![
        link("Riga and Pieriga", "/riga/"),
        link("Jurmala", "/jurmala/"),
        link("Riga", "/riga-new/"),
    ];
    assert_eq!(
        cities_among(&links),
        vec![link("Riga", "/riga-new/"), link("Jurmala", "/jurmala/")]
    );
}

#[test]
fn each_city_leads_where_the_last_link_of_its_name_led() {
    let links = vec![
        link("b and x", "1"),
        link("a", "2"),
        link(" b ", "3"),
        link("c", "4"),
        link("a and y", "5"),
        link("b", "6"),
    ];
    assert_eq!(cities_among(&links), vec![link("b", "6"), link("a", "5"), link("c", "4")]);
    assert_eq!(cities_among(&Vec::new()), Vec::<Link>::new());
}

#[test]
fn distinct_texts_keeps_the_first_of_equal_names() {
    assert_eq!(
        distinct_texts(&strings(&["Sell", "Rent", "Sell", "", "Rent", ""])),
        strings(&["Sell", "Rent", ""])
    );
}

#[test]
fn clean_texts_strips_no_break_spaces() {
    let elements = vec![
        element("Sell\u{a0}", Some("sell")),
        element("\u{a0}Re\u{a0}nt", None),
        element("Buy now", None),
        element("\u{a0}", None),
    ];
    assert_eq!(clean_texts(&elements), Ok(strings(&["Sell", "Rent", "Buy now", ""])));
    assert_eq!(clean_texts(&Vec::new()), Ok(Vec::new()));
}

#[test]
fn fetch_outcome_counts_success_by_status() {
    assert_eq!(page("x").into_page(), Some("x".to_string()));
    assert_eq!(FetchOutcome::Page { status: 299, body: "y".to_string() }.into_page(), Some("y".to_string()));
    assert_eq!(FetchOutcome::Page { status: 199, body: "y".to_string() }.into_page(), None);
    assert_eq!(FetchOutcome::Page { status: 300, body: "y".to_string() }.into_page(), None);
    assert_eq!(FetchOutcome::Page { status: 404, body: "y".to_string() }.into_page(), None);
    assert_eq!(FetchOutcome::Unreachable.into_page(), None);
}

#[test]
fn crawl_assembles_the_catalog() {
    let mut parser = FlatsParser::new(BASE);
    let (step, asked) = crawl(&mut parser, &site());
    assert_eq!(step, CrawlStep::Finished);
    assert_eq!(
        asked,
        vec![
            format!("{}/lv/real-estate/flats/", BASE),
            format!("{}/flats/riga-new/", BASE),
            format!("{}/flats/riga/centre/", BASE),
            format!("{}/flats/riga/teika/", BASE),
            format!("{}/flats/riga/centre/", BASE),
            format!("{}/flats/jurmala/", BASE),
        ]
    );
    assert_eq!(parser.cities, vec![riga(), jurmala()]);
}

#[test]
fn crawl_twice_gives_equal_catalogs() {
    let mut first = FlatsParser::new(BASE);
    crawl(&mut first, &site());
    let mut second = FlatsParser::new(BASE);
    crawl(&mut second, &site());
    assert_eq!(first.cities, second.cities);
    let before = first.cities.clone();
    let (step, _) = crawl(&mut first, &site());
    assert_eq!(step, CrawlStep::Finished);
    assert_eq!(first.cities, before);
}

#[test]
fn a_city_that_cannot_be_fetched_is_left_out() {
    let mut pages = site();
    pages.insert(format!("{}/flats/jurmala/", BASE), FetchOutcome::Page { status: 500, body: JURMALA.to_string() });
    let mut parser = FlatsParser::new(BASE);
    let (step, _) = crawl(&mut parser, &pages);
    assert_eq!(step, CrawlStep::Finished);
    assert_eq!(parser.cities, vec![riga()]);

    let mut pages = site();
    pages.remove(&format!("{}/flats/riga-new/", BASE));
    let mut parser = FlatsParser::new(BASE);
    let (step, asked) = crawl(&mut parser, &pages);
    assert_eq!(step, CrawlStep::Finished);
    assert_eq!(parser.cities, vec![jurmala()]);
    assert_eq!(asked.len(), 3);
}

#[test]
fn a_district_that_cannot_be_fetched_fails_the_crawl() {
    let mut parser = FlatsParser::new(BASE);
    crawl(&mut parser, &site());
    let before = parser.cities.clone();
    let mut pages = site();
    pages.remove(&format!("{}/flats/riga/teika/", BASE));
    let (step, asked) = crawl(&mut parser, &pages);
    assert_eq!(step, CrawlStep::Failed(CrawlError::DealTypeFetchFailed));
    assert_eq!(asked.len(), 4);
    assert_eq!(parser.cities, before);
    assert_eq!(
        parser.parse_global_data(CrawlEvent::Fetched(page(TEIKA))),
        CrawlStep::Failed(CrawlError::DealTypeFetchFailed)
    );
}

#[test]
fn without_the_root_page_the_crawl_fails() {
    let mut parser = FlatsParser::new(BASE);
    let (step, asked) = crawl(&mut parser, &HashMap::new());
    assert_eq!(step, CrawlStep::Failed(CrawlError::RootFetchFailed));
    assert_eq!(asked, vec![format!("{}/lv/real-estate/flats/", BASE)]);
    assert!(parser.cities.is_empty());
}

#[test]
fn a_root_page_without_cities_gives_an_empty_catalog() {
    let mut pages = HashMap::new();
    pages.insert(format!("{}/lv/real-estate/flats/", BASE), page("<p>closed</p>"));
    let mut parser = FlatsParser::new(BASE);
    parser.insert_city(jurmala());
    let (step, _) = crawl(&mut parser, &pages);
    assert_eq!(step, CrawlStep::Finished);
    assert!(parser.cities.is_empty());
}

#[test]
fn a_page_that_was_not_asked_for_changes_nothing() {
    let mut parser = FlatsParser::new(BASE);
    assert_eq!(parser.parse_global_data(CrawlEvent::Fetched(page(ROOT))), CrawlStep::Idle);
    assert!(parser.cities.is_empty());
    crawl(&mut parser, &site());
    assert_eq!(parser.parse_global_data(CrawlEvent::Fetched(page(ROOT))), CrawlStep::Finished);
    assert_eq!(parser.cities, vec![riga(), jurmala()]);
}

#[test]
fn each_failure_of_a_crawl_has_its_message() {
    assert_eq!(CrawlError::PatternFailed.message(), "Failed to create regex");
    assert_eq!(CrawlError::RootFetchFailed.message(), "Failed to get the page of cities");
    assert_eq!(CrawlError::SelectorFailed.message(), "Failed to parse selector");
    assert_eq!(CrawlError::DealTypeFetchFailed.message(), "Failed to get the page of a district");
}
