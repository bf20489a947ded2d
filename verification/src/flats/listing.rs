//! The listings of a district: where its first page is, and what flats the
//! page holds.

use super::crawl::FetchOutcome;
use super::markup::{
    element_views, free_below, is_readable, lemma_plain, plain, readable, row_views,
    select_tables, selected_tables, selector_parses, table_views, Element, ElementView,
};
use super::{flat_views, Flat, FlatCriteria, FlatView, FlatsParser};
use crate::text::{leading_number, read_leading_number, trim, trimmed};
use vstd::prelude::*;

verus! {

/// What follows a district's link in the address of its first page.
pub const PAGE_SUFFIX: &'static str = "/page1.html";

/// The selector of the tables of the results form.
pub const RESULTS_SELECTOR: &'static str = "form#filter_frm>table>tbody";

/// Which of those tables holds the listings: the second.
pub const RESULTS_INDEX: usize = 1;

/// The selector of the rows of that table.
pub const ROW_SELECTOR: &'static str = "tr";

/// The selector of the cells of a row.
pub const CELL_SELECTOR: &'static str = "td";

/// The selector of the links of a row.
pub const ANCHOR_SELECTOR: &'static str = "a";

/// The selector of the images of a row.
pub const IMAGE_SELECTOR: &'static str = "img";

/// The attribute read of a cell.
pub const CLASS_ATTR: &'static str = "class";

/// The attribute that holds a link's target.
pub const TARGET_ATTR: &'static str = "href";

/// The attribute that holds an image's address.
pub const SOURCE_ATTR: &'static str = "src";

/// The index of the cell that holds the street.
pub const STREET_CELL: usize = 3;

/// The index of the cell that holds the number of rooms.
pub const ROOMS_CELL: usize = 4;

/// The index of the cell that holds the area in square metres.
pub const AREA_CELL: usize = 5;

/// The index of the cell that holds the floor.
pub const FLOOR_CELL: usize = 6;

/// The index of the cell that holds the series of the building.
pub const SERIES_CELL: usize = 7;

/// The index of the cell that holds the price.
pub const PRICE_CELL: usize = 8;

/// Why the listings could not be had.
#[derive(Clone, Copy, Debug, PartialEq, Eq, Structural)]
pub enum FetchError {
    /// The page could not be fetched, or is too long to be read.
    Unreachable,
    /// The page holds no table of listings.
    NotFound,
    /// A selector was refused.
    SelectorFailed,
}

/// What is said where the page could not be fetched.
pub const PAGE_UNREACHABLE: &'static str = "Failed to get the page of listings";

/// What is said where the page holds no table of listings.
pub const TABLE_NOT_FOUND: &'static str = "Failed to find the table of listings";

/// What is said where a selector was refused.
pub const LISTING_SELECTOR_FAILED: &'static str = "Failed to parse selector";

impl FetchError {
    /// What is said of the failure.
    pub open spec fn text(self) -> Seq<char> {
        match self {
            FetchError::Unreachable => PAGE_UNREACHABLE@,
            FetchError::NotFound => TABLE_NOT_FOUND@,
            FetchError::SelectorFailed => LISTING_SELECTOR_FAILED@,
        }
    }

    /// What is said of the failure.
    pub fn message(&self) -> (text: String)
        ensures
            text@ == self.text(),
    {
        match self {
            FetchError::Unreachable => PAGE_UNREACHABLE.to_owned(),
            FetchError::NotFound => TABLE_NOT_FOUND.to_owned(),
            FetchError::SelectorFailed => LISTING_SELECTOR_FAILED.to_owned(),
        }
    }
}

/// The text of the cell of index `at`, without the blanks at either end;
/// empty where the row has no such cell.
pub open spec fn cell_text(cells: Seq<ElementView>, at: int) -> Seq<char> {
    if 0 <= at < cells.len() {
        trimmed(cells[at].0)
    } else {
        Seq::empty()
    }
}

/// The number that the cell of index `at` starts with; 0 where the row has
/// no such cell, or the cell starts with no number.
pub open spec fn cell_number(cells: Seq<ElementView>, at: int) -> u32 {
    if 0 <= at < cells.len() {
        leading_number(cells[at].0)
    } else {
        0
    }
}

/// The value of the attribute of the first of `elements` that carries it;
/// empty where none does.
pub open spec fn first_attr(elements: Seq<ElementView>) -> Seq<char>
    decreases elements.len(),
{
    if elements.len() == 0 {
        Seq::empty()
    } else {
        match elements[0].1 {
            Some(value) => value,
            None => first_attr(elements.drop_first()),
        }
    }
}

/// The flat that a row shows, given its cells, its links and its images.
pub open spec fn flat_of(
    cells: Seq<ElementView>,
    links: Seq<ElementView>,
    images: Seq<ElementView>,
) -> FlatView {
    FlatView {
        street_name: cell_text(cells, STREET_CELL as int),
        price: cell_text(cells, PRICE_CELL as int),
        url: first_attr(links),
        image_url: first_attr(images),
        rooms: cell_number(cells, ROOMS_CELL as int),
        square_meters: cell_number(cells, AREA_CELL as int),
        floor: cell_number(cells, FLOOR_CELL as int),
        series: cell_text(cells, SERIES_CELL as int),
    }
}

/// The row of index `at`; empty where there is no such row.
pub open spec fn row_at(rows: Seq<Seq<ElementView>>, at: int) -> Seq<ElementView> {
    if 0 <= at < rows.len() {
        rows[at]
    } else {
        Seq::empty()
    }
}

/// The flats that the rows of a table show. The first row and the last are
/// the table's head and foot: every row between them shows one flat, so a
/// table of fewer than two rows shows none. The rows are counted by `cells`.
pub open spec fn flats_of(
    cells: Seq<Seq<ElementView>>,
    links: Seq<Seq<ElementView>>,
    images: Seq<Seq<ElementView>>,
) -> Seq<FlatView> {
    if cells.len() < 2 {
        Seq::empty()
    } else {
        Seq::new(
            (cells.len() - 2) as nat,
            |i: int| flat_of(cells[i + 1], row_at(links, i + 1), row_at(images, i + 1)),
        )
    }
}

/// A table of `n` rows shows `n - 2` flats, and none where it has fewer
/// than two rows.
pub proof fn lemma_flats_of_len(
    cells: Seq<Seq<ElementView>>,
    links: Seq<Seq<ElementView>>,
    images: Seq<Seq<ElementView>>,
)
    ensures
        cells.len() >= 2 ==> flats_of(cells, links, images).len() == cells.len() - 2,
        cells.len() < 2 ==> flats_of(cells, links, images).len() == 0,
{
}

/// The table of index `at`; none where there are not so many tables.
pub open spec fn table_at(tables: Seq<Seq<Seq<ElementView>>>, at: int) -> Option<
    Seq<Seq<ElementView>>,
> {
    if 0 <= at < tables.len() {
        Some(tables[at])
    } else {
        None
    }
}

/// The flats that the tables of the results form show: those of the table of
/// listings, whose rows are given three times, as their cells, their links
/// and their images. Without that table there is nothing to be found.
pub open spec fn listed_flats(
    cells: Seq<Seq<Seq<ElementView>>>,
    links: Seq<Seq<Seq<ElementView>>>,
    images: Seq<Seq<Seq<ElementView>>>,
) -> Result<Seq<FlatView>, FetchError> {
    match (
        table_at(cells, RESULTS_INDEX as int),
        table_at(links, RESULTS_INDEX as int),
        table_at(images, RESULTS_INDEX as int),
    ) {
        (Some(cells), Some(links), Some(images)) => Ok(flats_of(cells, links, images)),
        _ => Err(FetchError::NotFound),
    }
}

/// The tables of the results form of the page `markup`, each as its rows,
/// and each row as what `cell` matches in it.
pub open spec fn results_tables(markup: Seq<char>, cell: Seq<char>, attr: Seq<char>) -> Seq<
    Seq<Seq<ElementView>>,
> {
    selected_tables(markup, RESULTS_SELECTOR@, ROW_SELECTOR@, cell, attr)
}

/// The flats that the page `markup` shows, or why there are none to be had:
/// the page is too long to be read, a selector was refused, or the page
/// holds no table of listings.
pub open spec fn page_flats(markup: Seq<char>) -> Result<Seq<FlatView>, FetchError> {
    if !readable(markup) {
        Err(FetchError::Unreachable)
    } else if !(selector_parses(RESULTS_SELECTOR@) && selector_parses(ROW_SELECTOR@) && selector_parses(
        CELL_SELECTOR@,
    ) && selector_parses(ANCHOR_SELECTOR@) && selector_parses(IMAGE_SELECTOR@)) {
        Err(FetchError::SelectorFailed)
    } else {
        listed_flats(
            results_tables(markup, CELL_SELECTOR@, CLASS_ATTR@),
            results_tables(markup, ANCHOR_SELECTOR@, TARGET_ATTR@),
            results_tables(markup, IMAGE_SELECTOR@, SOURCE_ATTR@),
        )
    }
}

/// The flats that a fetch of a page of listings comes to.
pub open spec fn fetched_flats(page: Option<Seq<char>>) -> Result<Seq<FlatView>, FetchError> {
    match page {
        None => Err(FetchError::Unreachable),
        Some(markup) => page_flats(markup),
    }
}

/// The value of the attribute of the first of `elements` that carries it:
/// see `first_attr`.
pub fn first_attr_among(elements: &Vec<Element>) -> (value: String)
    ensures
        value@ == first_attr(element_views(elements@)),
{
    let ghost views = element_views(elements@);
    let mut i: usize = 0;
    proof {
        assert(views.skip(0) =~= views);
    }
    while i < elements.len()
        invariant
            i <= elements.len(),
            views == element_views(elements@),
            first_attr(views) == first_attr(views.skip(i as int)),
        decreases elements.len() - i,
    {
        proof {
            assert(views.skip(i as int)[0] == elements@[i as int]@);
            assert(views.skip(i as int).drop_first() =~= views.skip(i + 1));
        }
        match &elements[i].attr {
            Some(value) => {
                return value.clone();
            },
            None => {},
        }
        i = i + 1;
    }
    String::new()
}

/// The flat that a row shows: see `flat_of`.
pub fn flat_from(cells: &Vec<Element>, links: &Vec<Element>, images: &Vec<Element>) -> (flat: Flat)
    ensures
        flat@ == flat_of(element_views(cells@), element_views(links@), element_views(images@)),
{
    Flat {
        street_name: text_at(cells, STREET_CELL),
        price: text_at(cells, PRICE_CELL),
        url: first_attr_among(links),
        image_url: first_attr_among(images),
        rooms: number_at(cells, ROOMS_CELL),
        square_meters: number_at(cells, AREA_CELL),
        floor: number_at(cells, FLOOR_CELL),
        series: text_at(cells, SERIES_CELL),
    }
}

/// The text of the cell of index `at`: see `cell_text`.
fn text_at(cells: &Vec<Element>, at: usize) -> (text: String)
    ensures
        text@ == cell_text(element_views(cells@), at as int),
{
    if at < cells.len() {
        trim(cells[at].text.as_str())
    } else {
        String::new()
    }
}

/// The number in the cell of index `at`: see `cell_number`.
fn number_at(cells: &Vec<Element>, at: usize) -> (n: u32)
    ensures
        n == cell_number(element_views(cells@), at as int),
{
    if at < cells.len() {
        read_leading_number(cells[at].text.as_str())
    } else {
        0
    }
}

/// The flats that the rows of a table show: see `flats_of`. A table of `n`
/// rows shows `n - 2` flats, and none where it has fewer than two rows.
pub fn flats_of_rows(
    cells: &Vec<Vec<Element>>,
    links: &Vec<Vec<Element>>,
    images: &Vec<Vec<Element>>,
) -> (flats: Vec<Flat>)
    ensures
        flat_views(flats@) == flats_of(row_views(cells@), row_views(links@), row_views(images@)),
        cells.len() >= 2 ==> flats.len() == cells.len() - 2,
        cells.len() < 2 ==> flats.len() == 0,
{
    let mut flats: Vec<Flat> = Vec::new();
    if cells.len() < 2 {
        proof {
            assert(flat_views(flats@) =~= Seq::<FlatView>::empty());
        }
        return flats;
    }
    let none: Vec<Element> = Vec::new();
    proof {
        assert(element_views(none@) =~= Seq::<ElementView>::empty());
    }
    let mut i: usize = 1;
    while i < cells.len() - 1
        invariant
            1 <= i <= cells.len() - 1,
            flats.len() == i - 1,
            element_views(none@) == Seq::<ElementView>::empty(),
            forall|k: int|
                0 <= k < i - 1 ==> (#[trigger] flats@[k])@ == flat_of(
                    row_views(cells@)[k + 1],
                    row_at(row_views(links@), k + 1),
                    row_at(row_views(images@), k + 1),
                ),
        decreases cells.len() - i,
    {
        let row_links = if i < links.len() {
            &links[i]
        } else {
            &none
        };
        let row_images = if i < images.len() {
            &images[i]
        } else {
            &none
        };
        let flat = flat_from(&cells[i], row_links, row_images);
        flats.push(flat);
        i = i + 1;
    }
    proof {
        assert(flat_views(flats@) =~= flats_of(
            row_views(cells@),
            row_views(links@),
            row_views(images@),
        ));
    }
    flats
}

/// The table of index `at`: see `table_at`.
pub fn table_of(tables: &Vec<Vec<Vec<Element>>>, at: usize) -> (table: Option<&Vec<Vec<Element>>>)
    ensures
        match table {
            Some(rows) => table_at(table_views(tables@), at as int) == Some(row_views(rows@)),
            None => table_at(table_views(tables@), at as int) is None,
        },
{
    if at < tables.len() {
        Some(&tables[at])
    } else {
        None
    }
}

/// The flats that the tables of the results form show: see `listed_flats`.
/// Where the table of listings is there and has `n` rows, it shows `n - 2`
/// flats, and none where it has fewer than two rows.
pub fn flats_of_tables(
    cells: &Vec<Vec<Vec<Element>>>,
    links: &Vec<Vec<Vec<Element>>>,
    images: &Vec<Vec<Vec<Element>>>,
) -> (found: Result<Vec<Flat>, FetchError>)
    ensures
        match found {
            Ok(flats) => listed_flats(table_views(cells@), table_views(links@), table_views(images@))
                == Ok::<Seq<FlatView>, FetchError>(flat_views(flats@)),
            Err(error) => listed_flats(table_views(cells@), table_views(links@), table_views(images@))
                == Err::<Seq<FlatView>, FetchError>(error),
        },
        found is Ok <==> (RESULTS_INDEX < cells.len() && RESULTS_INDEX < links.len() && RESULTS_INDEX
            < images.len()),
        found matches Err(error) ==> error == FetchError::NotFound,
        found matches Ok(flats) ==> flats.len() == if cells[RESULTS_INDEX as int].len() >= 2 {
            cells[RESULTS_INDEX as int].len() - 2
        } else {
            0
        },
{
    match (table_of(cells, RESULTS_INDEX), table_of(links, RESULTS_INDEX), table_of(images, RESULTS_INDEX)) {
        (Some(cells), Some(links), Some(images)) => Ok(flats_of_rows(cells, links, images)),
        _ => Err(FetchError::NotFound),
    }
}

/// The selectors that read a page of listings are plain.
proof fn lemma_selectors_plain()
    ensures
        plain(RESULTS_SELECTOR@),
        plain(ROW_SELECTOR@),
        plain(CELL_SELECTOR@),
        plain(ANCHOR_SELECTOR@),
        plain(IMAGE_SELECTOR@),
{
    reveal_strlit("form#filter_frm>table>tbody");
    reveal_strlit("tr");
    reveal_strlit("td");
    reveal_strlit("a");
    reveal_strlit("img");
    reveal_with_fuel(free_below, 28);
    lemma_plain(RESULTS_SELECTOR@);
    lemma_plain(ROW_SELECTOR@);
    lemma_plain(CELL_SELECTOR@);
    lemma_plain(ANCHOR_SELECTOR@);
    lemma_plain(IMAGE_SELECTOR@);
}

/// The flats that the page `markup` shows: see `page_flats`.
pub fn flats_of_page(markup: &str) -> (found: Result<Vec<Flat>, FetchError>)
    ensures
        match found {
            Ok(flats) => page_flats(markup@) == Ok::<Seq<FlatView>, FetchError>(flat_views(flats@)),
            Err(error) => page_flats(markup@) == Err::<Seq<FlatView>, FetchError>(error),
        },
{
    if !is_readable(markup) {
        return Err(FetchError::Unreachable);
    }
    proof {
        lemma_selectors_plain();
    }
    let cells = select_tables(markup, RESULTS_SELECTOR, ROW_SELECTOR, CELL_SELECTOR, CLASS_ATTR);
    let links = select_tables(markup, RESULTS_SELECTOR, ROW_SELECTOR, ANCHOR_SELECTOR, TARGET_ATTR);
    let images = select_tables(markup, RESULTS_SELECTOR, ROW_SELECTOR, IMAGE_SELECTOR, SOURCE_ATTR);
    match (cells, links, images) {
        (Ok(cells), Ok(links), Ok(images)) => flats_of_tables(&cells, &links, &images),
        _ => Err(FetchError::SelectorFailed),
    }
}

impl FlatsParser {
    /// The address of the first page of the listings that `criteria` asks
    /// for.
    pub fn listing_url(&self, criteria: &FlatCriteria) -> (url: String)
        ensures
            url@ == self@.url_base + criteria@.href + PAGE_SUFFIX@,
    {
        let mut url = self.url_of(criteria.href.as_str());
        url.append(PAGE_SUFFIX);
        url
    }

    /// The flats that a fetch of `listing_url` comes to: those that the
    /// page shows, where it was fetched and holds the table of listings.
    pub fn parse_flats_by_criteria(&self, outcome: FetchOutcome) -> (found: Result<
        Vec<Flat>,
        FetchError,
    >)
        ensures
            match found {
                Ok(flats) => fetched_flats(outcome.page()) == Ok::<Seq<FlatView>, FetchError>(
                    flat_views(flats@),
                ),
                Err(error) => fetched_flats(outcome.page()) == Err::<Seq<FlatView>, FetchError>(
                    error,
                ),
            },
    {
        match outcome.into_page() {
            None => Err(FetchError::Unreachable),
            Some(markup) => flats_of_page(markup.as_str()),
        }
    }
}

} // verus!
