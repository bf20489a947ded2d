use flats_bot::flats::crawl::{legible_page, CrawlError, CrawlEvent, CrawlStep, FetchOutcome};
use flats_bot::flats::listing::{
    first_attr_among, flat_from, flats_of_page, flats_of_rows, flats_of_tables, table_of,
    FetchError, RESULTS_INDEX,
};
use flats_bot::flats::markup::{is_readable, Element, MAX_MARKUP, MAX_SELECTOR, PSEUDO_SIGN};
use flats_bot::flats::{Flat, FlatCriteria, FlatsParser};

const LISTING: &str = r#"<html><body><form id="filter_frm">
<table><tbody><tr><td>filters</td></tr></tbody></table>
<table><tbody>
<tr id="head"><td>h0</td><td><a href="/sort/">Sort</a></td></tr>
<tr><td><input type="checkbox"></td><td><a href="/msg/flat1.html"><img src="https://i.example/1.jpg"></a></td><td><a href="/msg/flat1-again.html">Nice flat</a></td><td> Brivibas 1 </td><td>2</td><td>45</td><td>3/5</td><td>LT proj.</td><td>55,000 &euro;</td></tr>
<tr><td></td><td>no picture</td><td>Plain</td><td>Lacplesa 7</td><td>Citi</td><td> 120 m2</td><td>-</td><td></td></tr>
<tr id="foot"><td><a href="/page2.html">2</a></td></tr>
</tbody></table>
</form></body></html>"#;

fn element(text: &str, attr: Option<&str>) -> Element {
    Element { text: text.to_string(), attr: attr.map(|s| s.to_string()) }
}

fn cells(texts: &[&str]) -> Vec<Element> {
    texts.iter().map(|t| element(t, None)).collect()
}

fn first_flat() -> Flat {
    Flat {
        street_name: "Brivibas 1".to_string(),
        price: "55,000 \u{20ac}".to_string(),
        url: "/msg/flat1.html".to_string(),
        image_url: "https://i.example/1.jpg".to_string(),
        rooms: 2,
        square_meters: 45,
        floor: 3,
        series: "LT proj.".to_string(),
    }
}

fn second_flat() -> Flat {
    Flat {
        street_name: "Lacplesa 7".to_string(),
        price: String::new(),
        url: String::new(),
        image_url: String::new(),
        rooms: 0,
        square_meters: 120,
        floor: 0,
        series: String::new(),
    }
}

#[test]
fn a_page_of_four_rows_shows_two_flats() {
    assert_eq!(flats_of_page(LISTING), Ok(vec![first_flat(), second_flat()]));
}

#[test]
fn a_page_without_the_table_is_not_found() {
    assert_eq!(flats_of_page("<html><body><p>none</p></body></html>"), Err(FetchError::NotFound));
    let one_table = r#"<form id="filter_frm"><table><tbody><tr><td>x</td></tr><tr><td>y</td></tr><tr><td>z</td></tr></tbody></table></form>"#;
    assert_eq!(flats_of_page(one_table), Err(FetchError::NotFound));
}

#[test]
fn the_second_table_of_the_form_holds_the_listings() {
    assert_eq!(RESULTS_INDEX, 1);
    let rows_of = |street: &str| -> Vec<Vec<Element>> {
        vec![cells(&[]), cells(&["", "", "", street]), cells(&[])]
    };
    let tables = vec![rows_of("First"), rows_of("Second"), rows_of("Third")];
    let none: Vec<Vec<Vec<Element>>> = vec![Vec::new(), Vec::new(), Vec::new()];
    let flats = flats_of_tables(&tables, &none, &none).unwrap();
    assert_eq!(flats.len(), 1);
    assert_eq!(flats[0].street_name, "Second");
    assert_eq!(table_of(&tables, 0), Some(&rows_of("First")));
    assert_eq!(table_of(&tables, 2), Some(&rows_of("Third")));
    assert_eq!(table_of(&tables, 3), None);
}

#[test]
fn without_a_second_table_nothing_is_found() {
    let table = vec![cells(&["a"]), cells(&["b"]), cells(&["c"])];
    let two = vec![table.clone(), table.clone()];
    let one = vec![table.clone()];
    let empty: Vec<Vec<Vec<Element>>> = Vec::new();
    assert_eq!(flats_of_tables(&empty, &empty, &empty), Err(FetchError::NotFound));
    assert_eq!(flats_of_tables(&one, &one, &one), Err(FetchError::NotFound));
    assert_eq!(flats_of_tables(&one, &two, &two), Err(FetchError::NotFound));
    assert_eq!(flats_of_tables(&two, &one, &two), Err(FetchError::NotFound));
    assert_eq!(flats_of_tables(&two, &two, &one), Err(FetchError::NotFound));
    assert_eq!(flats_of_tables(&two, &two, &two).map(|flats| flats.len()), Ok(1));
}

#[test]
fn a_page_of_three_tables_is_read_by_its_second() {
    let page = r#"<form id="filter_frm">
<table><tbody><tr><td>a</td></tr><tr><td></td><td></td><td></td><td>Wrong 1</td></tr><tr><td>z</td></tr></tbody></table>
<table><tbody><tr><td>a</td></tr><tr><td></td><td><a href="/msg/right.html">x</a></td><td></td><td>Right 2</td><td>4</td></tr><tr><td>z</td></tr></tbody></table>
<table><tbody><tr><td>a</td></tr><tr><td></td><td></td><td></td><td>Wrong 3</td></tr><tr><td>z</td></tr></tbody></table>
</form>"#;
    let flats = flats_of_page(page).unwrap();
    assert_eq!(flats.len(), 1);
    assert_eq!(flats[0].street_name, "Right 2");
    assert_eq!(flats[0].url, "/msg/right.html");
    assert_eq!(flats[0].rooms, 4);
}

#[test]
fn the_selectors_of_a_page_are_plain() {
    assert_eq!(MAX_SELECTOR, 256);
    assert_eq!(PSEUDO_SIGN, ':');
    for selector in [
        flats_bot::flats::listing::RESULTS_SELECTOR,
        flats_bot::flats::listing::ROW_SELECTOR,
        flats_bot::flats::listing::CELL_SELECTOR,
        flats_bot::flats::listing::ANCHOR_SELECTOR,
        flats_bot::flats::listing::IMAGE_SELECTOR,
        flats_bot::flats::crawl::CATEGORY_SELECTOR,
        flats_bot::flats::crawl::DEAL_TYPE_SELECTOR,
    ] {
        assert!(selector.chars().count() <= MAX_SELECTOR);
        assert!(!selector.contains(PSEUDO_SIGN));
    }
}

#[test]
fn a_table_of_fewer_than_two_rows_shows_no_flat() {
    let empty = r#"<form id="filter_frm"><table><tbody></tbody></table><table><tbody></tbody></table></form>"#;
    assert_eq!(flats_of_page(empty), Ok(Vec::new()));
    let one = r#"<form id="filter_frm"><table><tbody></tbody></table><table><tbody><tr><td>x</td></tr></tbody></table></form>"#;
    assert_eq!(flats_of_page(one), Ok(Vec::new()));
    let two = r#"<form id="filter_frm"><table><tbody></tbody></table><table><tbody><tr><td>x</td></tr><tr><td>y</td></tr></tbody></table></form>"#;
    assert_eq!(flats_of_page(two), Ok(Vec::new()));
}

#[test]
fn rows_between_the_first_and_the_last_are_flats() {
    for n in 0..7usize {
        let rows: Vec<Vec<Element>> = (0..n).map(|i| cells(&["", "", "", &format!("Street {}", i)])).collect();
        let flats = flats_of_rows(&rows, &Vec::new(), &Vec::new());
        assert_eq!(flats.len(), if n >= 2 { n - 2 } else { 0 });
        for (k, flat) in flats.iter().enumerate() {
            assert_eq!(flat.street_name, format!("Street {}", k + 1));
        }
    }
}

#[test]
fn rows_take_their_links_and_images_by_index() {
    let rows = vec![cells(&[]), cells(&["a"]), cells(&["b"]), cells(&[])];
    let links = vec![
        vec![element("head", Some("/head"))],
        vec![element("x", None), element("y", Some("/one")), element("z", Some("/other"))],
    ];
    let images = vec![Vec::new(), Vec::new(), vec![element("", Some("two.jpg"))]];
    let flats = flats_of_rows(&rows, &links, &images);
    assert_eq!(flats.len(), 2);
    assert_eq!(flats[0].url, "/one");
    assert_eq!(flats[0].image_url, "");
    assert_eq!(flats[1].url, "");
    assert_eq!(flats[1].image_url, "two.jpg");
}

#[test]
fn flat_from_reads_cells_by_position() {
    let row = cells(&["0", "1", "2", " Street ", "3 rooms", "70", "2/9", " 103. ", " 99 "]);
    let flat = flat_from(&row, &vec![element("a", Some("/u"))], &Vec::new());
    assert_eq!(
        flat,
        Flat {
            street_name: "Street".to_string(),
            price: "99".to_string(),
            url: "/u".to_string(),
            image_url: String::new(),
            rooms: 3,
            square_meters: 70,
            floor: 2,
            series: "103.".to_string(),
        }
    );
    assert_eq!(first_attr_among(&vec![element("a", None), element("b", Some("v")), element("c", Some("w"))]), "v");
    assert_eq!(first_attr_among(&vec![element("a", None)]), "");
}

#[test]
fn listing_url_is_the_first_page_of_the_district() {
    let parser = FlatsParser::new("https://www.ss.com");
    let criteria = FlatCriteria {
        href: "/lv/real-estate/flats/riga/centre".to_string(),
        city: "Riga".to_string(),
        district: "Centre".to_string(),
        deal_type: "Sell".to_string(),
        price_from: 100,
        price_to: 500,
    };
    assert_eq!(
        parser.listing_url(&criteria),
        "https://www.ss.com/lv/real-estate/flats/riga/centre/page1.html"
    );
}

#[test]
fn parse_flats_by_criteria_needs_the_page() {
    let parser = FlatsParser::new("https://www.ss.com");
    assert_eq!(parser.parse_flats_by_criteria(FetchOutcome::Unreachable), Err(FetchError::Unreachable));
    assert_eq!(
        parser.parse_flats_by_criteria(FetchOutcome::Page { status: 404, body: LISTING.to_string() }),
        Err(FetchError::Unreachable)
    );
    assert_eq!(
        parser.parse_flats_by_criteria(FetchOutcome::Page { status: 200, body: LISTING.to_string() }),
        Ok(vec![first_flat(), second_flat()])
    );
    assert_eq!(
        parser.parse_flats_by_criteria(FetchOutcome::Page { status: 200, body: String::new() }),
        Err(FetchError::NotFound)
    );
}

#[test]
fn each_failure_to_get_listings_has_its_message() {
    assert_eq!(FetchError::Unreachable.message(), "Failed to get the page of listings");
    assert_eq!(FetchError::NotFound.message(), "Failed to find the table of listings");
    assert_eq!(FetchError::SelectorFailed.message(), "Failed to parse selector");
}

#[test]
fn criteria_are_in_order_where_the_least_price_is_not_above_the_greatest() {
    let mut criteria = FlatCriteria {
        href: String::new(),
        city: String::new(),
        district: String::new(),
        deal_type: String::new(),
        price_from: 100,
        price_to: 500,
    };
    assert!(criteria.is_in_order());
    criteria.price_from = 500;
    assert!(criteria.is_in_order());
    criteria.price_from = 501;
    assert!(!criteria.is_in_order());
}

#[test]
fn a_page_of_ordinary_length_can_be_read() {
    assert_eq!(MAX_MARKUP, 268435456);
    assert!(is_readable(&"a".repeat(4096)));
    assert!(is_readable(""));
    assert!(is_readable(LISTING));
    assert_eq!(legible_page(Some("x".to_string())), Some("x".to_string()));
    assert_eq!(legible_page(None), None);
}

#[test]
fn a_page_too_long_to_be_read_counts_as_not_fetched() {
    let long = "a".repeat(MAX_MARKUP + 1);
    assert!(!is_readable(&long));
    assert!(is_readable(&long[1..]));
    assert_eq!(flats_of_page(&long), Err(FetchError::Unreachable));
    let mut parser = FlatsParser::new("https://site.example");
    assert_eq!(
        parser.parse_global_data(CrawlEvent::Begin),
        CrawlStep::Fetch("https://site.example/lv/real-estate/flats/".to_string())
    );
    assert_eq!(
        parser.parse_global_data(CrawlEvent::Fetched(FetchOutcome::Page { status: 200, body: long })),
        CrawlStep::Failed(CrawlError::RootFetchFailed)
    );
    assert!(parser.cities.is_empty());
}
