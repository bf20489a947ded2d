//! The catalog of cities, districts and deal types, the crawler that fills
//! it, and the listings of a district.

pub mod crawl;
pub mod links;
pub mod listing;
pub mod markup;
pub mod runs;

use crate::text::{same_text, texts};
use crawl::{Crawl, CrawlView};
use vstd::prelude::*;

verus! {

/// A district of a city, with the deal types offered in it.
///
/// The deal types are a set, kept in the order in which the district's page
/// names them: a crawl stores none twice.
#[derive(Debug, Clone, PartialEq, Eq, Hash)]
pub struct CategoryStructure {
    pub name: String,
    pub href: String,
    pub deal_types: Vec<String>,
}

/// A city with its districts.
///
/// The districts are a set, kept in the order in which the city's page lists
/// them: `insert_district` adds none whose name and link are there already
/// (`sound_districts`).
#[derive(Debug, Clone, PartialEq, Eq, Hash)]
pub struct City {
    pub name: String,
    pub href: String,
    pub districts: Vec<CategoryStructure>,
}

/// One listing of a results page.
#[derive(Debug, Clone, PartialEq, Eq)]
pub struct Flat {
    pub street_name: String,
    pub price: String,
    pub url: String,
    pub image_url: String,
    pub rooms: u32,
    pub square_meters: u32,
    pub floor: u32,
    pub series: String,
}

/// A completed selection: where to look, and for what.
#[derive(Debug, Clone, PartialEq, Eq)]
pub struct FlatCriteria {
    pub href: String,
    pub city: String,
    pub district: String,
    pub deal_type: String,
    pub price_from: u32,
    pub price_to: u32,
}

/// The catalog of cities, and the crawler that fills it.
///
/// `cities` is the catalog that the last completed crawl left; a crawl in
/// progress assembles the next one aside and puts it here when it ends.
/// The cities are a set by name, kept in the order in which the root page
/// lists them, so that a crawl visits them in that order whenever it runs:
/// `insert_city` adds none whose name is there already (`well_formed`).
pub struct FlatsParser {
    pub cities: Vec<City>,
    url_base: String,
    crawl: Crawl,
}

/// A district as a mathematical value.
#[verifier::ext_equal]
pub struct DistrictView {
    pub name: Seq<char>,
    pub href: Seq<char>,
    pub deal_types: Seq<Seq<char>>,
}

/// A city as a mathematical value.
#[verifier::ext_equal]
pub struct CityView {
    pub name: Seq<char>,
    pub href: Seq<char>,
    pub districts: Seq<DistrictView>,
}

/// A listing as a mathematical value.
#[verifier::ext_equal]
pub struct FlatView {
    pub street_name: Seq<char>,
    pub price: Seq<char>,
    pub url: Seq<char>,
    pub image_url: Seq<char>,
    pub rooms: u32,
    pub square_meters: u32,
    pub floor: u32,
    pub series: Seq<char>,
}

/// A selection as a mathematical value.
#[verifier::ext_equal]
pub struct CriteriaView {
    pub href: Seq<char>,
    pub city: Seq<char>,
    pub district: Seq<char>,
    pub deal_type: Seq<char>,
    pub price_from: u32,
    pub price_to: u32,
}

/// The catalog and its crawler as a mathematical value.
#[verifier::ext_equal]
pub struct ParserView {
    pub cities: Seq<CityView>,
    pub url_base: Seq<char>,
    pub crawl: CrawlView,
}

impl View for CategoryStructure {
    type V = DistrictView;

    open spec fn view(&self) -> DistrictView {
        DistrictView { name: self.name@, href: self.href@, deal_types: texts(self.deal_types@) }
    }
}

impl View for City {
    type V = CityView;

    open spec fn view(&self) -> CityView {
        CityView { name: self.name@, href: self.href@, districts: district_views(self.districts@) }
    }
}

impl View for Flat {
    type V = FlatView;

    open spec fn view(&self) -> FlatView {
        FlatView {
            street_name: self.street_name@,
            price: self.price@,
            url: self.url@,
            image_url: self.image_url@,
            rooms: self.rooms,
            square_meters: self.square_meters,
            floor: self.floor,
            series: self.series@,
        }
    }
}

impl View for FlatCriteria {
    type V = CriteriaView;

    open spec fn view(&self) -> CriteriaView {
        CriteriaView {
            href: self.href@,
            city: self.city@,
            district: self.district@,
            deal_type: self.deal_type@,
            price_from: self.price_from,
            price_to: self.price_to,
        }
    }
}

impl View for FlatsParser {
    type V = ParserView;

    closed spec fn view(&self) -> ParserView {
        ParserView { cities: city_views(self.cities@), url_base: self.url_base@, crawl: self.crawl@ }
    }
}

/// The views of a sequence of districts.
pub open spec fn district_views(districts: Seq<CategoryStructure>) -> Seq<DistrictView> {
    districts.map_values(|d: CategoryStructure| d@)
}

/// The views of a sequence of cities.
pub open spec fn city_views(cities: Seq<City>) -> Seq<CityView> {
    cities.map_values(|c: City| c@)
}

/// The views of a sequence of listings.
pub open spec fn flat_views(flats: Seq<Flat>) -> Seq<FlatView> {
    flats.map_values(|f: Flat| f@)
}

/// The names of a sequence of cities.
pub open spec fn city_names(cities: Seq<CityView>) -> Seq<Seq<char>> {
    cities.map_values(|c: CityView| c.name)
}

/// The names of a sequence of districts.
pub open spec fn district_names(districts: Seq<DistrictView>) -> Seq<Seq<char>> {
    districts.map_values(|d: DistrictView| d.name)
}

/// The index of the first of `names` that equals `name`.
pub open spec fn position(names: Seq<Seq<char>>, name: Seq<char>) -> Option<int>
    decreases names.len(),
{
    if names.len() == 0 {
        None
    } else {
        match position(names.drop_last(), name) {
            Some(at) => Some(at),
            None => if names.last() == name {
                Some(names.len() - 1)
            } else {
                None
            },
        }
    }
}

/// `position` finds the first occurrence, and finds one wherever there is
/// one.
pub proof fn lemma_position(names: Seq<Seq<char>>, name: Seq<char>)
    ensures
        match position(names, name) {
            Some(at) => 0 <= at < names.len() && names[at] == name && forall|j: int|
                0 <= j < at ==> #[trigger] names[j] != name,
            None => forall|j: int| 0 <= j < names.len() ==> #[trigger] names[j] != name,
        },
    decreases names.len(),
{
    if names.len() > 0 {
        let front = names.drop_last();
        lemma_position(front, name);
        assert(forall|j: int| 0 <= j < front.len() ==> front[j] == names[j]);
    }
}

/// An index as a mathematical integer.
pub open spec fn index_view(at: Option<usize>) -> Option<int> {
    match at {
        Some(i) => Some(i as int),
        None => None,
    }
}

/// Whether one of `districts` has this name and this link.
pub open spec fn holds_district(districts: Seq<DistrictView>, name: Seq<char>, href: Seq<char>) -> bool {
    exists|i: int|
        0 <= i < districts.len() && (#[trigger] districts[i]).name == name && districts[i].href
            == href
}

/// `districts` with `district` added, unless one of the same name and link
/// is there already.
pub open spec fn with_district(districts: Seq<DistrictView>, district: DistrictView) -> Seq<
    DistrictView,
> {
    if holds_district(districts, district.name, district.href) {
        districts
    } else {
        districts.push(district)
    }
}

/// `cities` with `city` added, unless one of the same name is there already.
pub open spec fn with_city(cities: Seq<CityView>, city: CityView) -> Seq<CityView> {
    if city_names(cities).contains(city.name) {
        cities
    } else {
        cities.push(city)
    }
}

/// No two of `districts` share both name and link.
pub open spec fn distinct_districts(districts: Seq<DistrictView>) -> bool {
    forall|i: int, j: int|
        0 <= i < j < districts.len() ==> !((#[trigger] districts[i]).name == (
        #[trigger] districts[j]).name && districts[i].href == districts[j].href)
}

/// The districts of a city are sound where no two of them share both name
/// and link, and none names a deal type twice.
pub open spec fn sound_districts(districts: Seq<DistrictView>) -> bool {
    &&& distinct_districts(districts)
    &&& forall|i: int|
        0 <= i < districts.len() ==> (#[trigger] districts[i]).deal_types.no_duplicates()
}

/// A catalog is well formed where no two cities share a name and the
/// districts of each city are sound.
pub open spec fn well_formed(cities: Seq<CityView>) -> bool {
    &&& city_names(cities).no_duplicates()
    &&& forall|i: int| 0 <= i < cities.len() ==> sound_districts((#[trigger] cities[i]).districts)
}

/// Adding a district as `with_district` does keeps the districts sound.
pub proof fn lemma_with_district_sound(districts: Seq<DistrictView>, district: DistrictView)
    requires
        sound_districts(districts),
        district.deal_types.no_duplicates(),
    ensures
        sound_districts(with_district(districts, district)),
{
}

/// Adding a city as `with_city` does keeps a catalog well formed.
pub proof fn lemma_with_city_well_formed(cities: Seq<CityView>, city: CityView)
    requires
        well_formed(cities),
        sound_districts(city.districts),
    ensures
        well_formed(with_city(cities, city)),
{
    if !city_names(cities).contains(city.name) {
        assert(city_names(cities.push(city)) =~= city_names(cities).push(city.name));
    }
}

proof fn lemma_district_views_push(districts: Seq<CategoryStructure>, district: CategoryStructure)
    ensures
        district_views(districts.push(district)) == district_views(districts).push(district@),
{
    assert(district_views(districts.push(district)) =~= district_views(districts).push(district@));
}

proof fn lemma_city_views_push(cities: Seq<City>, city: City)
    ensures
        city_views(cities.push(city)) == city_views(cities).push(city@),
{
    assert(city_views(cities.push(city)) =~= city_views(cities).push(city@));
}

/// The index of the first of `districts` named `name`.
pub fn find_district(districts: &Vec<CategoryStructure>, name: &str) -> (at: Option<usize>)
    ensures
        index_view(at) == position(district_names(district_views(districts@)), name@),
        at matches Some(i) ==> i < districts.len(),
{
    let ghost names = district_names(district_views(districts@));
    let mut i: usize = 0;
    proof {
        assert(names.take(0) =~= Seq::<Seq<char>>::empty());
    }
    while i < districts.len()
        invariant
            i <= districts.len(),
            names == district_names(district_views(districts@)),
            position(names.take(i as int), name@) is None,
        decreases districts.len() - i,
    {
        proof {
            assert(names.take(i + 1).drop_last() =~= names.take(i as int));
            assert(names.take(i + 1).last() == districts@[i as int].name@);
        }
        if same_text(districts[i].name.as_str(), name) {
            proof {
                lemma_position_extends(names, name@, i + 1);
            }
            return Some(i);
        }
        i = i + 1;
    }
    proof {
        assert(names.take(i as int) =~= names);
    }
    None
}

/// What `position` finds in the first `k` names it finds in all of them.
pub proof fn lemma_position_extends(names: Seq<Seq<char>>, name: Seq<char>, k: int)
    requires
        0 <= k <= names.len(),
        position(names.take(k), name) is Some,
    ensures
        position(names, name) == position(names.take(k), name),
    decreases names.len(),
{
    if k < names.len() {
        assert(names.drop_last().take(k) =~= names.take(k));
        lemma_position_extends(names.drop_last(), name, k);
    } else {
        assert(names.take(k) =~= names);
    }
}

/// Whether one of `districts` has this name and this link.
pub fn has_district(districts: &Vec<CategoryStructure>, name: &str, href: &str) -> (r: bool)
    ensures
        r == holds_district(district_views(districts@), name@, href@),
{
    let mut i: usize = 0;
    while i < districts.len()
        invariant
            i <= districts.len(),
            forall|j: int|
                0 <= j < i ==> !((#[trigger] district_views(districts@)[j]).name == name@
                    && district_views(districts@)[j].href == href@),
        decreases districts.len() - i,
    {
        if same_text(districts[i].name.as_str(), name) && same_text(districts[i].href.as_str(), href) {
            proof {
                assert(district_views(districts@)[i as int].name == name@);
            }
            return true;
        }
        i = i + 1;
    }
    false
}

/// Adds `district` to `districts`, unless one of the same name and link is
/// there already; says whether it was added.
pub fn insert_district(districts: &mut Vec<CategoryStructure>, district: CategoryStructure) -> (added: bool)
    ensures
        district_views(final(districts)@) == with_district(district_views(old(districts)@), district@),
        added == !holds_district(district_views(old(districts)@), district@.name, district@.href),
        sound_districts(district_views(old(districts)@)) && district@.deal_types.no_duplicates()
            ==> sound_districts(district_views(final(districts)@)),
{
    if has_district(districts, district.name.as_str(), district.href.as_str()) {
        false
    } else {
        proof {
            lemma_district_views_push(districts@, district);
        }
        districts.push(district);
        true
    }
}

/// The index of the first of `cities` named `name`.
pub fn find_city(cities: &Vec<City>, name: &str) -> (at: Option<usize>)
    ensures
        index_view(at) == position(city_names(city_views(cities@)), name@),
        at matches Some(i) ==> i < cities.len(),
{
    let ghost names = city_names(city_views(cities@));
    let mut i: usize = 0;
    proof {
        assert(names.take(0) =~= Seq::<Seq<char>>::empty());
    }
    while i < cities.len()
        invariant
            i <= cities.len(),
            names == city_names(city_views(cities@)),
            position(names.take(i as int), name@) is None,
        decreases cities.len() - i,
    {
        proof {
            assert(names.take(i + 1).drop_last() =~= names.take(i as int));
            assert(names.take(i + 1).last() == cities@[i as int].name@);
        }
        if same_text(cities[i].name.as_str(), name) {
            proof {
                lemma_position_extends(names, name@, i + 1);
            }
            return Some(i);
        }
        i = i + 1;
    }
    proof {
        assert(names.take(i as int) =~= names);
    }
    None
}

impl FlatCriteria {
    /// Whether the least price is not above the greatest.
    pub open spec fn in_order(&self) -> bool {
        self.price_from <= self.price_to
    }

    /// Whether the least price is not above the greatest.
    pub fn is_in_order(&self) -> (r: bool)
        ensures
            r == self.in_order(),
    {
        self.price_from <= self.price_to
    }
}

impl CategoryStructure {
    /// Whether the district offers `deal_type`.
    pub fn offers(&self, deal_type: &str) -> (r: bool)
        ensures
            r == self@.deal_types.contains(deal_type@),
    {
        let mut i: usize = 0;
        while i < self.deal_types.len()
            invariant
                i <= self.deal_types.len(),
                forall|j: int| 0 <= j < i ==> self@.deal_types[j] != deal_type@,
            decreases self.deal_types.len() - i,
        {
            if same_text(self.deal_types[i].as_str(), deal_type) {
                proof {
                    assert(self@.deal_types[i as int] == deal_type@);
                }
                return true;
            }
            i = i + 1;
        }
        false
    }
}

impl City {
    /// The index of the first district named `name`.
    pub fn find_district(&self, name: &str) -> (at: Option<usize>)
        ensures
            index_view(at) == position(district_names(self@.districts), name@),
            at matches Some(i) ==> i < self.districts.len(),
    {
        find_district(&self.districts, name)
    }

    /// Adds `district`, unless one of the same name and link is there
    /// already; says whether it was added.
    pub fn insert_district(&mut self, district: CategoryStructure) -> (added: bool)
        ensures
            final(self)@ == (CityView {
                districts: with_district(old(self)@.districts, district@),
                ..old(self)@
            }),
            added == !holds_district(old(self)@.districts, district@.name, district@.href),
            sound_districts(old(self)@.districts) && district@.deal_types.no_duplicates()
                ==> sound_districts(final(self)@.districts),
    {
        insert_district(&mut self.districts, district)
    }
}

/// A parser is sound where its catalog is well formed and its crawl is
/// orderly. A new parser is sound; a crawl keeps it so, and so does
/// adding a city whose districts are sound.
pub open spec fn sound(p: ParserView) -> bool {
    well_formed(p.cities) && runs::orderly(p)
}

impl FlatsParser {
    /// A parser for the site at `url_base`, with an empty catalog and no
    /// crawl under way.
    pub fn new(url_base: &str) -> (parser: FlatsParser)
        ensures
            parser@.cities.len() == 0,
            parser@.url_base == url_base@,
            parser@.crawl == CrawlView::idle(),
            sound(parser@),
    {
        let parser = FlatsParser {
            cities: Vec::new(),
            url_base: url_base.to_owned(),
            crawl: Crawl::new(),
        };
        proof {
            assert(city_views(parser.cities@) =~= Seq::<CityView>::empty());
            assert(city_names(parser@.cities) =~= Seq::<Seq<char>>::empty());
            assert(city_names(parser@.crawl.built) + crawl::link_names(parser@.crawl.cities)
                =~= Seq::<Seq<char>>::empty());
        }
        parser
    }

    /// The address of the site, without a path.
    pub fn url_base(&self) -> (base: &str)
        ensures
            base@ == self@.url_base,
    {
        self.url_base.as_str()
    }

    /// The catalog: the cities that the last completed crawl left.
    pub fn catalog(&self) -> (cities: &Vec<City>)
        ensures
            city_views(cities@) == self@.cities,
    {
        &self.cities
    }

    /// The index of the first city named `name`.
    pub fn find_city(&self, name: &str) -> (at: Option<usize>)
        ensures
            index_view(at) == position(city_names(self@.cities), name@),
            at matches Some(i) ==> i < self@.cities.len(),
    {
        find_city(&self.cities, name)
    }

    /// Adds `city` to the catalog, unless one of the same name is there
    /// already; says whether it was added.
    pub fn insert_city(&mut self, city: City) -> (added: bool)
        ensures
            final(self)@ == (ParserView { cities: with_city(old(self)@.cities, city@), ..old(self)@ }),
            added == !city_names(old(self)@.cities).contains(city@.name),
            sound(old(self)@) && sound_districts(city@.districts) ==> sound(final(self)@),
    {
        let at = self.find_city(city.name.as_str());
        proof {
            lemma_position(city_names(self@.cities), city@.name);
            if well_formed(self@.cities) && sound_districts(city@.districts) {
                lemma_with_city_well_formed(self@.cities, city@);
            }
        }
        match at {
            Some(_) => false,
            None => {
                proof {
                    lemma_city_views_push(self.cities@, city);
                }
                self.cities.push(city);
                true
            },
        }
    }
}

} // verus!
