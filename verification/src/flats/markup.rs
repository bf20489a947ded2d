//! Reading markup: what a selector matches in a page, and cleaning text by a
//! pattern. The HTML parser, the selector engine and the pattern engine are
//! not part of this library; the functions here call them, and their
//! contracts are taken on trust.

use regex::Regex;
use scraper::error::SelectorErrorKind;
use scraper::{ElementRef, Html, Selector};
use vstd::prelude::*;

verus! {

/// Why a selector was refused.
#[verifier::external_type_specification]
#[verifier::external_body]
pub struct ExSelectorErrorKind(SelectorErrorKind);

/// Why a pattern was refused.
#[verifier::external_type_specification]
#[verifier::external_body]
pub struct ExPatternError(regex::Error);

/// What the library reads of an element that a selector matched: its text
/// and the value of one attribute.
#[derive(Debug, Clone, PartialEq, Eq)]
pub struct Element {
    pub text: String,
    pub attr: Option<String>,
}

/// An element as a pair of its text and the value of the attribute.
pub type ElementView = (Seq<char>, Option<Seq<char>>);

impl View for Element {
    type V = ElementView;

    open spec fn view(&self) -> ElementView {
        (
            self.text@,
            match self.attr {
                Some(value) => Some(value@),
                None => None,
            },
        )
    }
}

/// The views of a sequence of elements.
pub open spec fn element_views(elements: Seq<Element>) -> Seq<ElementView> {
    elements.map_values(|e: Element| e@)
}

/// The views of the rows of a table of elements.
pub open spec fn row_views(rows: Seq<Vec<Element>>) -> Seq<Seq<ElementView>> {
    rows.map_values(|row: Vec<Element>| element_views(row@))
}

/// The views of a sequence of tables of elements.
pub open spec fn table_views(tables: Seq<Vec<Vec<Element>>>) -> Seq<Seq<Seq<ElementView>>> {
    tables.map_values(|table: Vec<Vec<Element>>| row_views(table@))
}

/// Whether `selector` is a selector group that scraper's `Selector::parse`
/// accepts.
pub uninterp spec fn selector_parses(selector: Seq<char>) -> bool;

/// The elements of the document `markup` that `selector` matches, in the
/// order in which scraper's `Html::select` yields them, each as its text and
/// the value of its attribute `attr`.
pub uninterp spec fn selected(markup: Seq<char>, selector: Seq<char>, attr: Seq<char>) -> Seq<
    (Seq<char>, Option<Seq<char>>),
>;

/// For each element that `table` matches in the document `markup`: for each
/// of its descendants that `row` matches, the descendants of that one that
/// `cell` matches, each as its text and the value of its attribute `attr`;
/// orders as scraper's `select` yields them.
pub uninterp spec fn selected_tables(
    markup: Seq<char>,
    table: Seq<char>,
    row: Seq<char>,
    cell: Seq<char>,
    attr: Seq<char>,
) -> Seq<Seq<Seq<(Seq<char>, Option<Seq<char>>)>>>;

/// Whether `pattern` is a regular expression that regex's `Regex::new`
/// compiles.
pub uninterp spec fn pattern_compiles(pattern: Seq<char>) -> bool;

/// The pattern that matches one no-break space: the escape `\u{a0}`.
pub const NBSP_PATTERN: &'static str = "\\u{a0}";

/// The no-break space.
pub const NBSP: char = '\u{a0}';

/// `s` without any occurrence of `c`.
pub open spec fn without_char(s: Seq<char>, c: char) -> Seq<char> {
    s.filter(|x: char| x != c)
}

/// The most characters of a page that can be read. The HTML parser gathers
/// a run of text in one buffer, whose capacity it rounds up to a power of
/// two and keeps in 32 bits; on a 32-bit machine that capacity must also be
/// less than half the address space. A character takes four bytes at most,
/// read or written, so with this many characters no buffer passes 2^30
/// bytes.
pub const MAX_MARKUP: usize = 0x1000_0000;

/// Whether a page of this text can be read: it is not too long.
pub open spec fn readable(markup: Seq<char>) -> bool {
    markup.len() <= MAX_MARKUP
}

/// Whether a page of this text can be read.
pub fn is_readable(markup: &str) -> (r: bool)
    ensures
        r == readable(markup@),
{
    markup.unicode_len() <= MAX_MARKUP
}

/// The most characters of a selector that is handed to the selector engine.
/// The engine matches a chain of combinators by calling itself once for each
/// of them, so a chain has to be short enough for the stack.
pub const MAX_SELECTOR: usize = 256;

/// The sign that opens a pseudo-class in a selector. The engine matches
/// some pseudo-classes by calling itself once for each level of the
/// document below an element, and a document may be deeper than the stack.
pub const PSEUDO_SIGN: char = ':';

/// Whether a selector of this text can be handed to the selector engine: it
/// is not too long, and it names no pseudo-class.
pub open spec fn plain(selector: Seq<char>) -> bool {
    selector.len() <= MAX_SELECTOR && !selector.contains(PSEUDO_SIGN)
}

/// Whether none of the first `n` characters of `s` is `c`.
pub open spec fn free_below(s: Seq<char>, c: char, n: nat) -> bool
    decreases n,
{
    n == 0 || (s[n - 1] != c && free_below(s, c, (n - 1) as nat))
}

/// Where none of the first `n` characters of `s` is `c`, `c` stands at none
/// of the first `n` places.
pub proof fn lemma_free_below(s: Seq<char>, c: char, n: nat)
    requires
        free_below(s, c, n),
    ensures
        forall|i: int| 0 <= i < n ==> s[i] != c,
    decreases n,
{
    if n > 0 {
        lemma_free_below(s, c, (n - 1) as nat);
    }
}

/// A short selector that holds no `:` is plain.
pub proof fn lemma_plain(selector: Seq<char>)
    requires
        selector.len() <= MAX_SELECTOR,
        free_below(selector, PSEUDO_SIGN, selector.len()),
    ensures
        plain(selector),
{
    lemma_free_below(selector, PSEUDO_SIGN, selector.len());
}

/// Parses `selector` with scraper's `Selector::parse` and `markup` with
/// `Html::parse_document`, walks `Html::select`, and hands out each element
/// as its text (the pieces of `ElementRef::text`, joined) and the value of
/// its attribute `attr` (`Element::attr`).
///
/// Trusted: it fails exactly when the selector is refused, and what it
/// returns depends on the three strings alone. The parser panics where a
/// run of text outgrows its buffer (tendril's `Buf32::grow`), and the
/// selector engine calls itself once for each combinator, and for some
/// pseudo-classes once for each level of the document; so a page that is
/// too long, a selector that is too long and one with a pseudo-class are
/// left out.
#[verifier::external_body]
pub(crate) fn select_elements(markup: &str, selector: &str, attr: &str) -> (found: Result<
    Vec<Element>,
    SelectorErrorKind,
>)
    requires
        readable(markup@),
        plain(selector@),
    ensures
        found is Ok <==> selector_parses(selector@),
        found matches Ok(elements) ==> element_views(elements@) == selected(
            markup@,
            selector@,
            attr@,
        ),
{
    let selector = Selector::parse(selector)?;
    let read = |e: ElementRef| Element { text: e.text().collect(), attr: e.value().attr(attr).map(String::from) };
    let document = Html::parse_document(markup);
    Ok(document.select(&selector).map(read).collect())
}

/// Parses the three selectors with scraper's `Selector::parse` and `markup`
/// with `Html::parse_document`, walks `Html::select` for `table`, in each
/// element that it yields `ElementRef::select` for `row`, and in each row
/// `ElementRef::select` for `cell`; each cell is handed out as its text
/// (`ElementRef::text`, joined) and the value of its attribute `attr`
/// (`Element::attr`).
///
/// Trusted: it fails exactly when one of the selectors is refused, and what
/// it returns depends on its arguments alone. The parser panics where a run
/// of text outgrows its buffer (tendril's `Buf32::grow`), and the selector
/// engine calls itself once for each combinator, and for some
/// pseudo-classes once for each level of the document; so a page that is
/// too long, selectors that are too long and those with a pseudo-class are
/// left out.
#[verifier::external_body]
pub(crate) fn select_tables(markup: &str, table: &str, row: &str, cell: &str, attr: &str) -> (found:
    Result<Vec<Vec<Vec<Element>>>, SelectorErrorKind>)
    requires
        readable(markup@),
        plain(table@),
        plain(row@),
        plain(cell@),
    ensures
        found is Ok <==> (selector_parses(table@) && selector_parses(row@) && selector_parses(cell@)),
        found matches Ok(tables) ==> table_views(tables@) == selected_tables(
            markup@,
            table@,
            row@,
            cell@,
            attr@,
        ),
{
    let (table, row, cell) = (Selector::parse(table)?, Selector::parse(row)?, Selector::parse(cell)?);
    let read = |c: ElementRef| Element { text: c.text().collect(), attr: c.value().attr(attr).map(String::from) };
    let cells = |r: ElementRef| -> Vec<Element> { r.select(&cell).map(read).collect() };
    let rows = |t: ElementRef| -> Vec<Vec<Element>> { t.select(&row).map(cells).collect() };
    let document = Html::parse_document(markup);
    Ok(document.select(&table).map(rows).collect())
}

/// Compiles `pattern` with regex's `Regex::new` and replaces every match in
/// `text` by `replacement` (`Regex::replace_all`).
///
/// Trusted: it fails exactly when the pattern is refused; and with the
/// pattern `\u{a0}`, which regex documents to match that one code point, and
/// an empty replacement, the result is `text` without its no-break spaces.
#[verifier::external_body]
pub(crate) fn replace_all(pattern: &str, text: &str, replacement: &str) -> (out: Result<
    String,
    regex::Error,
>)
    ensures
        out is Ok <==> pattern_compiles(pattern@),
        out matches Ok(cleaned) ==> (pattern@ == NBSP_PATTERN@ && replacement@.len() == 0
            ==> cleaned@ == without_char(text@, NBSP)),
{
    Ok(Regex::new(pattern)?.replace_all(text, replacement).into_owned())
}

} // verus!
