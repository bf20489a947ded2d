//! What holds of the names and links that the crawler reads off a page.

use super::crawl::{
    city_links, distinct, link_names, normalized_name, upserted, LinkView, NAME_SEPARATOR,
};
use super::{lemma_position, position};
use crate::text::{
    first_occurrence, is_blank, lemma_first_occurrence, lemma_trimmed, occurs_at, trimmed,
    without_leading_blanks, without_trailing_blanks,
};
use vstd::prelude::*;

verus! {

/// The normalized names of a sequence of links.
pub open spec fn normalized_names(links: Seq<LinkView>) -> Seq<Seq<char>> {
    links.map_values(|l: LinkView| normalized_name(l.name))
}

/// `distinct` holds no name twice, and holds just the names of `names`.
pub proof fn lemma_distinct(names: Seq<Seq<char>>)
    ensures
        distinct(names).no_duplicates(),
        forall|name: Seq<char>|
            #![trigger distinct(names).contains(name)]
            #![trigger names.contains(name)]
            distinct(names).contains(name) <==> names.contains(name),
    decreases names.len(),
{
    if names.len() > 0 {
        let front = names.drop_last();
        let last = names.last();
        lemma_distinct(front);
        let rest = distinct(front);
        let all = distinct(names);
        assert forall|name: Seq<char>| all.contains(name) implies names.contains(name) by {
            let j = choose|j: int| 0 <= j < all.len() && all[j] == name;
            if j < rest.len() {
                assert(rest[j] == name);
                assert(rest.contains(name));
                let i = choose|i: int| 0 <= i < front.len() && front[i] == name;
                assert(names[i] == name);
            } else {
                assert(names[names.len() - 1] == name);
            }
        }
        assert forall|name: Seq<char>| names.contains(name) implies all.contains(name) by {
            let i = choose|i: int| 0 <= i < names.len() && names[i] == name;
            if i < front.len() {
                assert(front[i] == name);
                assert(front.contains(name));
            } else {
                assert(name == last);
            }
            if rest.contains(name) {
                let j = choose|j: int| 0 <= j < rest.len() && rest[j] == name;
                assert(all[j] == name);
            } else {
                assert(all[rest.len() as int] == name);
            }
        }
    }
}

/// Putting a link in changes the names only where the name is new: it is
/// added at the end. The names stay distinct.
pub proof fn lemma_upserted_names(links: Seq<LinkView>, link: LinkView)
    ensures
        link_names(upserted(links, link)) == if link_names(links).contains(link.name) {
            link_names(links)
        } else {
            link_names(links).push(link.name)
        },
        link_names(links).no_duplicates() ==> link_names(upserted(links, link)).no_duplicates(),
        link_names(upserted(links, link)).contains(link.name),
{
    let names = link_names(links);
    lemma_position(names, link.name);
    match position(names, link.name) {
        Some(at) => {
            assert(link_names(upserted(links, link)) =~= names);
            assert(names[at] == link.name);
        },
        None => {
            assert(link_names(upserted(links, link)) =~= names.push(link.name));
            assert(names.push(link.name)[names.len() as int] == link.name);
        },
    }
}

/// The cities that links lead to are named as the links are, normalized:
/// each name once, where it first stood.
pub proof fn lemma_city_links_names(links: Seq<LinkView>)
    ensures
        link_names(city_links(links)) == distinct(normalized_names(links)),
        link_names(city_links(links)).no_duplicates(),
    decreases links.len(),
{
    if links.len() == 0 {
        assert(link_names(city_links(links)) =~= Seq::<Seq<char>>::empty());
        assert(normalized_names(links) =~= Seq::<Seq<char>>::empty());
    } else {
        let front = links.drop_last();
        lemma_city_links_names(front);
        let link = LinkView {
            name: normalized_name(links.last().name),
            href: links.last().href,
        };
        lemma_upserted_names(city_links(front), link);
        assert(normalized_names(links).drop_last() =~= normalized_names(front));
        assert(normalized_names(links).last() == link.name);
    }
}

/// Each city leads where the last link of its name led.
pub proof fn lemma_city_links_last_wins(links: Seq<LinkView>, at: int)
    requires
        0 <= at < city_links(links).len(),
    ensures
        exists|j: int|
            0 <= j < links.len() && normalized_name(#[trigger] links[j].name) == city_links(
                links,
            )[at].name && links[j].href == city_links(links)[at].href && forall|k: int|
                j < k < links.len() ==> normalized_name(#[trigger] links[k].name) != city_links(
                    links,
                )[at].name,
    decreases links.len(),
{
    if links.len() > 0 {
        let front = links.drop_last();
        let rest = city_links(front);
        let link = LinkView {
            name: normalized_name(links.last().name),
            href: links.last().href,
        };
        let city = city_links(links)[at];
        lemma_position(link_names(rest), link.name);
        lemma_city_links_names(front);
        let last: int = links.len() - 1;
        if city.name == link.name {
            match position(link_names(rest), link.name) {
                Some(p) => {
                    assert(link_names(rest)[p] == link.name);
                    if at != p {
                        assert(link_names(rest)[at] == rest[at].name);
                        assert(rest[at].name == city.name);
                    }
                },
                None => {
                    if at < rest.len() {
                        assert(link_names(rest)[at] == rest[at].name);
                    }
                },
            }
            assert(city.href == link.href);
            assert(normalized_name(links[last].name) == city.name);
        } else {
            match position(link_names(rest), link.name) {
                Some(p) => {
                    assert(link_names(rest)[p] == rest[p].name);
                    assert(at != p);
                },
                None => {
                    assert(at < rest.len());
                },
            }
            assert(rest[at] == city);
            lemma_city_links_last_wins(front, at);
            let j = choose|j: int|
                0 <= j < front.len() && normalized_name(#[trigger] front[j].name) == rest[at].name
                    && front[j].href == rest[at].href && forall|k: int|
                    j < k < front.len() ==> normalized_name(#[trigger] front[k].name)
                        != rest[at].name;
            assert(links[j] == front[j]);
            assert forall|k: int| j < k < links.len() implies normalized_name(
                #[trigger] links[k].name,
            ) != city.name by {
                if k < front.len() {
                    assert(links[k] == front[k]);
                }
            }
        }
    }
}

/// The cities that links lead to have distinct names, each the normalized
/// name of one of the links.
pub proof fn lemma_city_links(links: Seq<LinkView>)
    ensures
        link_names(city_links(links)).no_duplicates(),
        forall|name: Seq<char>|
            link_names(city_links(links)).contains(name) ==> exists|j: int|
                0 <= j < links.len() && name == normalized_name(#[trigger] links[j].name),
{
    lemma_city_links_names(links);
    lemma_distinct(normalized_names(links));
    assert forall|name: Seq<char>| link_names(city_links(links)).contains(name) implies exists|
        j: int,
    | 0 <= j < links.len() && name == normalized_name(#[trigger] links[j].name) by {
        assert(normalized_names(links).contains(name));
        let j = choose|j: int|
            0 <= j < normalized_names(links).len() && normalized_names(links)[j] == name;
        assert(name == normalized_name(links[j].name));
    }
}

/// What stands in a part of a sequence stands in the sequence, further on
/// by where the part begins.
pub proof fn lemma_occurs_in_part(s: Seq<char>, from: int, to: int, pattern: Seq<char>, at: int)
    requires
        0 <= from <= to <= s.len(),
        occurs_at(s.subrange(from, to), pattern, at),
    ensures
        occurs_at(s, pattern, from + at),
        from + at + pattern.len() <= to,
{
    assert(s.subrange(from + at, from + at + pattern.len()) =~= s.subrange(from, to).subrange(
        at,
        at + pattern.len(),
    ));
}

/// A trimmed sequence is a part of what was trimmed.
pub proof fn lemma_trimmed_is_part(s: Seq<char>) -> (bounds: (int, int))
    ensures
        0 <= bounds.0 <= bounds.1 <= s.len(),
        trimmed(s) == s.subrange(bounds.0, bounds.1),
{
    let (a, rest) = lemma_leading_part(s);
    let b = lemma_trailing_part(rest);
    assert(s.subrange(a, s.len() as int).subrange(0, b) =~= s.subrange(a, a + b));
    (a, a + b)
}

proof fn lemma_leading_part(s: Seq<char>) -> (r: (int, Seq<char>))
    ensures
        0 <= r.0 <= s.len(),
        r.1 == without_leading_blanks(s),
        r.1 == s.subrange(r.0, s.len() as int),
    decreases s.len(),
{
    if s.len() > 0 && is_blank(s[0]) {
        let (a, rest) = lemma_leading_part(s.drop_first());
        assert(s.drop_first().subrange(a, s.len() - 1) =~= s.subrange(a + 1, s.len() as int));
        (a + 1, rest)
    } else {
        assert(s.subrange(0, s.len() as int) =~= s);
        (0, s)
    }
}

proof fn lemma_trailing_part(s: Seq<char>) -> (b: int)
    ensures
        0 <= b <= s.len(),
        without_trailing_blanks(s) == s.subrange(0, b),
    decreases s.len(),
{
    if s.len() > 0 && is_blank(s.last()) {
        let b = lemma_trailing_part(s.drop_last());
        assert(s.drop_last().subrange(0, b) =~= s.subrange(0, b));
        b
    } else {
        assert(s.subrange(0, s.len() as int) =~= s);
        s.len() as int
    }
}

/// A normalized name is its own normalized name: it holds no separator,
/// and neither starts nor ends with a blank.
pub proof fn lemma_normalized_name_stable(display: Seq<char>)
    ensures
        first_occurrence(normalized_name(display), NAME_SEPARATOR@, 0) is None,
        normalized_name(normalized_name(display)) == normalized_name(display),
{
    let separator = NAME_SEPARATOR@;
    let name = normalized_name(display);
    lemma_first_occurrence(display, separator, 0);
    lemma_first_occurrence(name, separator, 0);
    let end: int = match first_occurrence(display, separator, 0) {
        Some(at) => at,
        None => display.len() as int,
    };
    let front = display.take(end);
    reveal_strlit(" and ");
    assert(separator.len() == 5);
    assert(display.take(display.len() as int) =~= display);
    assert(name == trimmed(front));
    let (a, b) = lemma_trimmed_is_part(front);
    if let Some(j) = first_occurrence(name, separator, 0) {
        lemma_occurs_in_part(front, a, b, separator, j);
        assert(front.subrange(a + j, a + j + separator.len()) =~= display.subrange(
            a + j,
            a + j + separator.len(),
        ));
        assert(occurs_at(display, separator, a + j));
        assert(false);
    }
    lemma_trimmed(front);
}

} // verus!
