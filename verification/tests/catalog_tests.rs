use flats_bot::flats::{
    find_city, find_district, has_district, insert_district, CategoryStructure, City, FlatsParser,
};

fn district(name: &str, href: &str, deal_types: &[&str]) -> CategoryStructure {
    CategoryStructure {
        name: name.to_string(),
        href: href.to_string(),
        deal_types: deal_types.iter().map(|s| s.to_string()).collect(),
    }
}

fn city(name: &str, href: &str, districts: Vec<CategoryStructure>) -> City {
    City { name: name.to_string(), href: href.to_string(), districts }
}

#[test]
fn new_parser_is_empty() {
    let parser = FlatsParser::new("https://www.ss.com");
    assert!(parser.cities.is_empty());
    assert!(parser.catalog().is_empty());
    assert_eq!(parser.url_base(), "https://www.ss.com");
    assert_eq!(parser.url_of("/x/"), "https://www.ss.com/x/");
}

#[test]
fn insert_city_keeps_names_unique() {
    let mut parser = FlatsParser::new("https://www.ss.com");
    assert!(parser.insert_city(city("Riga", "/riga/", vec![])));
    assert!(parser.insert_city(city("Jurmala", "/jurmala/", vec![])));
    assert!(!parser.insert_city(city("Riga", "/riga2/", vec![])));
    assert_eq!(parser.cities.len(), 2);
    assert_eq!(parser.cities[0].href, "/riga/");
    assert_eq!(parser.find_city("Jurmala"), Some(1));
    assert_eq!(parser.find_city("Riga"), Some(0));
    assert_eq!(parser.find_city("riga"), None);
    assert_eq!(find_city(&parser.cities, "Jurmala"), Some(1));
}

#[test]
fn insert_district_keeps_name_and_link_unique() {
    let mut districts = Vec::new();
    assert!(insert_district(&mut districts, district("Centre", "/c/", &["Sell"])));
    assert!(insert_district(&mut districts, district("Centre", "/c2/", &["Rent"])));
    assert!(!insert_district(&mut districts, district("Centre", "/c/", &["Rent"])));
    assert_eq!(districts.len(), 2);
    assert_eq!(districts[0].deal_types, vec!["Sell".to_string()]);
    assert!(has_district(&districts, "Centre", "/c2/"));
    assert!(!has_district(&districts, "Centre", "/c3/"));
    assert!(!has_district(&districts, "Other", "/c/"));
    assert_eq!(find_district(&districts, "Centre"), Some(0));
    assert_eq!(find_district(&districts, "Other"), None);
}

#[test]
fn city_methods_work_on_its_districts() {
    let mut riga = city("Riga", "/riga/", vec![district("Centre", "/c/", &["Sell", "Rent"])]);
    assert!(riga.insert_district(district("Agenskalns", "/a/", &[])));
    assert!(!riga.insert_district(district("Centre", "/c/", &[])));
    assert_eq!(riga.find_district("Agenskalns"), Some(1));
    assert_eq!(riga.find_district("agenskalns"), None);
    assert!(riga.districts[0].offers("Rent"));
    assert!(!riga.districts[0].offers("rent"));
    assert!(!riga.districts[1].offers("Rent"));
}
