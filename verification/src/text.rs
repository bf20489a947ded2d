//! Character-level helpers on strings: equality, the lexicographic order and
//! sorting by it, blanks and trimming, search, and decimal numbers.

use vstd::prelude::*;
use vstd::relations::{sorted_by, total_ordering};
use vstd::seq_lib::{lemma_sorted_unique, to_multiset_build, to_multiset_insert};

verus! {

/// The character sequences of a sequence of strings.
pub open spec fn texts(v: Seq<String>) -> Seq<Seq<char>> {
    v.map_values(|s: String| s@)
}

/// The characters of `s`, in order.
pub fn chars_of(s: &str) -> (out: Vec<char>)
    ensures
        out@ == s@,
{
    broadcast use vstd::string::group_string_axioms;

    let mut out: Vec<char> = Vec::new();
    for c in it: s.chars()
        invariant
            it.seq() == s@,
            out@ == it.seq().take(it.index() as int),
    {
        out.push(c);
    }
    proof {
        assert(out@ =~= s@);
    }
    out
}

/// Whether two strings hold the same characters.
pub fn same_text(a: &str, b: &str) -> (r: bool)
    ensures
        r == (a@ == b@),
{
    let x = a.to_owned();
    let y = b.to_owned();
    x.eq(&y)
}

/// The lexicographic order on character sequences, by code point: a proper
/// prefix comes before what it is a prefix of.
pub open spec fn lex_le(a: Seq<char>, b: Seq<char>) -> bool
    decreases a.len(),
{
    if a.len() == 0 {
        true
    } else if b.len() == 0 {
        false
    } else if a[0] == b[0] {
        lex_le(a.drop_first(), b.drop_first())
    } else {
        a[0] < b[0]
    }
}

/// `lex_le` as a relation, for the sequence library.
pub open spec fn lex_order() -> spec_fn(Seq<char>, Seq<char>) -> bool {
    |a: Seq<char>, b: Seq<char>| lex_le(a, b)
}

/// Every sequence is at most itself.
pub proof fn lemma_lex_le_reflexive(a: Seq<char>)
    ensures
        lex_le(a, a),
    decreases a.len(),
{
    if a.len() > 0 {
        lemma_lex_le_reflexive(a.drop_first());
    }
}

/// Two sequences that are each at most the other are equal.
pub proof fn lemma_lex_le_antisymmetric(a: Seq<char>, b: Seq<char>)
    requires
        lex_le(a, b),
        lex_le(b, a),
    ensures
        a == b,
    decreases a.len(),
{
    if a.len() == 0 || b.len() == 0 {
        assert(a =~= b);
    } else {
        lemma_lex_le_antisymmetric(a.drop_first(), b.drop_first());
        assert(a =~= seq![a[0]] + a.drop_first());
        assert(b =~= seq![b[0]] + b.drop_first());
    }
}

/// The order is transitive.
pub proof fn lemma_lex_le_transitive(a: Seq<char>, b: Seq<char>, c: Seq<char>)
    requires
        lex_le(a, b),
        lex_le(b, c),
    ensures
        lex_le(a, c),
    decreases a.len(),
{
    if a.len() > 0 && a[0] == b[0] && b[0] == c[0] {
        lemma_lex_le_transitive(a.drop_first(), b.drop_first(), c.drop_first());
    }
}

/// Of two sequences one is at most the other.
pub proof fn lemma_lex_le_connected(a: Seq<char>, b: Seq<char>)
    ensures
        lex_le(a, b) || lex_le(b, a),
    decreases a.len(),
{
    if a.len() > 0 && b.len() > 0 {
        if a[0] == b[0] {
            lemma_lex_le_connected(a.drop_first(), b.drop_first());
        }
    }
}

/// The lexicographic order is a total order.
pub proof fn lemma_lex_order_total()
    ensures
        total_ordering(lex_order()),
{
    let r = lex_order();
    assert forall|x: Seq<char>| #[trigger] r(x, x) by {
        lemma_lex_le_reflexive(x);
    }
    assert forall|x: Seq<char>, y: Seq<char>| #[trigger] r(x, y) && #[trigger] r(y, x) implies x
        == y by {
        lemma_lex_le_antisymmetric(x, y);
    }
    assert forall|x: Seq<char>, y: Seq<char>, z: Seq<char>| #[trigger] r(x, y) && #[trigger] r(
        y,
        z,
    ) implies r(x, z) by {
        lemma_lex_le_transitive(x, y, z);
    }
    assert forall|x: Seq<char>, y: Seq<char>| #[trigger] r(x, y) || #[trigger] r(y, x) by {
        lemma_lex_le_connected(x, y);
    }
}

/// Whether `a` comes before `b`, or equals it, in the lexicographic order.
pub fn text_le(a: &str, b: &str) -> (r: bool)
    ensures
        r == lex_le(a@, b@),
{
    let x = chars_of(a);
    let y = chars_of(b);
    let mut i: usize = 0;
    proof {
        assert(x@.skip(0) =~= x@);
        assert(y@.skip(0) =~= y@);
    }
    while i < x.len() && i < y.len()
        invariant
            x@ == a@,
            y@ == b@,
            i <= x.len(),
            i <= y.len(),
            lex_le(a@, b@) == lex_le(x@.skip(i as int), y@.skip(i as int)),
        decreases x.len() - i,
    {
        proof {
            assert(x@.skip(i as int)[0] == x@[i as int]);
            assert(y@.skip(i as int)[0] == y@[i as int]);
        }
        if x[i] != y[i] {
            return x[i] < y[i];
        }
        proof {
            assert(x@.skip(i as int).drop_first() =~= x@.skip(i + 1));
            assert(y@.skip(i as int).drop_first() =~= y@.skip(i + 1));
        }
        i = i + 1;
    }
    i >= x.len()
}

/// The sequences of `names`, sorted by the lexicographic order.
pub open spec fn sorted_texts(names: Seq<Seq<char>>) -> Seq<Seq<char>> {
    names.sort_by(lex_order())
}

/// `sorted_texts` is sorted and holds each sequence as often as `names` does;
/// it is the only such sequence.
pub proof fn lemma_sorted_texts(names: Seq<Seq<char>>)
    ensures
        sorted_by(sorted_texts(names), lex_order()),
        sorted_texts(names).to_multiset() == names.to_multiset(),
        sorted_texts(names).len() == names.len(),
        forall|other: Seq<Seq<char>>|
            sorted_by(other, lex_order()) && other.to_multiset() == names.to_multiset()
                ==> other == sorted_texts(names),
{
    lemma_lex_order_total();
    names.lemma_sort_by_ensures(lex_order());
    names.to_multiset_ensures();
    sorted_texts(names).to_multiset_ensures();
    assert forall|other: Seq<Seq<char>>|
        sorted_by(other, lex_order()) && other.to_multiset() == names.to_multiset() implies other
        == sorted_texts(names) by {
        lemma_sorted_unique(other, sorted_texts(names), lex_order());
    }
}

proof fn lemma_texts_insert(v: Seq<String>, at: int, s: String)
    requires
        0 <= at <= v.len(),
    ensures
        texts(v.insert(at, s)) == texts(v).insert(at, s@),
{
    assert(texts(v.insert(at, s)) =~= texts(v).insert(at, s@));
}

/// The strings of `names`, sorted by the lexicographic order.
pub fn sort_texts(names: &Vec<String>) -> (out: Vec<String>)
    ensures
        texts(out@) == sorted_texts(texts(names@)),
{
    let mut out: Vec<String> = Vec::new();
    let mut k: usize = 0;
    proof {
        assert(texts(names@.take(0)) =~= texts(out@));
    }
    while k < names.len()
        invariant
            k <= names.len(),
            sorted_by(texts(out@), lex_order()),
            texts(out@).to_multiset() == texts(names@.take(k as int)).to_multiset(),
        decreases names.len() - k,
    {
        let item = names[k].clone();
        let mut at: usize = 0;
        while at < out.len() && text_le(out[at].as_str(), item.as_str())
            invariant
                at <= out.len(),
                forall|j: int| 0 <= j < at ==> lex_le(#[trigger] out@[j]@, item@),
            decreases out.len() - at,
        {
            at = at + 1;
        }
        proof {
            let before = texts(out@);
            let after = before.insert(at as int, item@);
            lemma_texts_insert(out@, at as int, item);
            to_multiset_insert(before, at as int, item@);
            assert(texts(names@.take(k + 1)) =~= texts(names@.take(k as int)).push(item@));
            to_multiset_build(texts(names@.take(k as int)), item@);
            assert forall|i: int, j: int| 0 <= i < j < after.len() implies #[trigger] lex_order()(
                after[i],
                after[j],
            ) by {
                if j == at {
                    assert(lex_le(out@[i]@, item@));
                } else if i == at {
                    assert(!lex_le(out@[at as int]@, item@));
                    lemma_lex_le_connected(out@[at as int]@, item@);
                    if j - 1 > at {
                        assert(lex_order()(before[at as int], before[j - 1]));
                        lemma_lex_le_transitive(item@, before[at as int], before[j - 1]);
                    }
                } else {
                    let i0: int = if i < at { i } else { i - 1 };
                    let j0: int = if j < at { j } else { j - 1 };
                    assert(lex_order()(before[i0], before[j0]));
                }
            }
        }
        out.insert(at, item);
        k = k + 1;
    }
    proof {
        assert(names@.take(k as int) =~= names@);
        lemma_sorted_texts(texts(names@));
    }
    out
}

/// Whether `c` is a blank: a space, a tab, a line feed or a carriage return.
pub open spec fn is_blank(c: char) -> bool {
    c == ' ' || c == '\t' || c == '\n' || c == '\r'
}

/// `s` without the blanks it starts with.
pub open spec fn without_leading_blanks(s: Seq<char>) -> Seq<char>
    decreases s.len(),
{
    if s.len() > 0 && is_blank(s[0]) {
        without_leading_blanks(s.drop_first())
    } else {
        s
    }
}

/// `s` without the blanks it ends with.
pub open spec fn without_trailing_blanks(s: Seq<char>) -> Seq<char>
    decreases s.len(),
{
    if s.len() > 0 && is_blank(s.last()) {
        without_trailing_blanks(s.drop_last())
    } else {
        s
    }
}

/// `s` without the blanks at either end.
pub open spec fn trimmed(s: Seq<char>) -> Seq<char> {
    without_trailing_blanks(without_leading_blanks(s))
}

/// A trimmed sequence neither starts nor ends with a blank, and trimming it
/// again changes nothing.
pub proof fn lemma_trimmed(s: Seq<char>)
    ensures
        trimmed(s).len() > 0 ==> !is_blank(trimmed(s).first()) && !is_blank(trimmed(s).last()),
        trimmed(trimmed(s)) == trimmed(s),
        trimmed(s).len() <= s.len(),
{
    lemma_leading(s);
    lemma_trailing(without_leading_blanks(s));
    let t = trimmed(s);
    if t.len() > 0 {
        assert(t.first() == without_leading_blanks(s).first());
    }
}

proof fn lemma_leading(s: Seq<char>)
    ensures
        without_leading_blanks(s).len() <= s.len(),
        without_leading_blanks(s).len() > 0 ==> !is_blank(without_leading_blanks(s).first()),
        without_leading_blanks(s) == s.skip(s.len() - without_leading_blanks(s).len()),
    decreases s.len(),
{
    if s.len() > 0 && is_blank(s[0]) {
        let rest = s.drop_first();
        lemma_leading(rest);
        let kept = without_leading_blanks(rest);
        assert(rest.skip(rest.len() - kept.len()) =~= s.skip(s.len() - kept.len()));
    } else {
        assert(s.skip(0) =~= s);
    }
}

proof fn lemma_trailing(s: Seq<char>)
    ensures
        without_trailing_blanks(s).len() <= s.len(),
        without_trailing_blanks(s).len() > 0 ==> !is_blank(without_trailing_blanks(s).last()),
        without_trailing_blanks(s) == s.take(without_trailing_blanks(s).len() as int),
    decreases s.len(),
{
    if s.len() > 0 && is_blank(s.last()) {
        let rest = s.drop_last();
        lemma_trailing(rest);
        let kept = without_trailing_blanks(rest);
        assert(rest.take(kept.len() as int) =~= s.take(kept.len() as int));
    } else {
        assert(s.take(s.len() as int) =~= s);
    }
}

/// Whether `c` is a blank.
pub fn blank(c: char) -> (r: bool)
    ensures
        r == is_blank(c),
{
    c == ' ' || c == '\t' || c == '\n' || c == '\r'
}

/// The bounds of `chars[from..to]` without the blanks at either end.
pub(crate) fn trim_bounds(chars: &Vec<char>, from: usize, to: usize) -> (r: (usize, usize))
    requires
        from <= to <= chars.len(),
    ensures
        from <= r.0 <= r.1 <= to,
        chars@.subrange(r.0 as int, r.1 as int) == trimmed(chars@.subrange(from as int, to as int)),
{
    let mut lo: usize = from;
    while lo < to && blank(chars[lo])
        invariant
            from <= lo <= to <= chars.len(),
            without_leading_blanks(chars@.subrange(from as int, to as int))
                == without_leading_blanks(chars@.subrange(lo as int, to as int)),
        decreases to - lo,
    {
        proof {
            assert(chars@.subrange(lo as int, to as int).drop_first() =~= chars@.subrange(
                lo + 1,
                to as int,
            ));
        }
        lo = lo + 1;
    }
    let mut hi: usize = to;
    while lo < hi && blank(chars[hi - 1])
        invariant
            from <= lo <= hi <= to <= chars.len(),
            without_leading_blanks(chars@.subrange(from as int, to as int)) == chars@.subrange(
                lo as int,
                to as int,
            ),
            without_trailing_blanks(chars@.subrange(lo as int, to as int))
                == without_trailing_blanks(chars@.subrange(lo as int, hi as int)),
        decreases hi - lo,
    {
        proof {
            assert(chars@.subrange(lo as int, hi as int).drop_last() =~= chars@.subrange(
                lo as int,
                hi - 1,
            ));
        }
        hi = hi - 1;
    }
    (lo, hi)
}

/// Whether `pattern` stands in `s` at index `at`.
pub open spec fn occurs_at(s: Seq<char>, pattern: Seq<char>, at: int) -> bool {
    0 <= at && at + pattern.len() <= s.len() && s.subrange(at, at + pattern.len()) == pattern
}

/// The least index from `from` on at which `pattern` stands in `s`.
pub open spec fn first_occurrence(s: Seq<char>, pattern: Seq<char>, from: int) -> Option<int>
    decreases s.len() + 1 - from,
{
    if from < 0 || from + pattern.len() > s.len() {
        None
    } else if occurs_at(s, pattern, from) {
        Some(from)
    } else {
        first_occurrence(s, pattern, from + 1)
    }
}

/// What `first_occurrence` finds is an occurrence with none before it, and
/// it finds one wherever there is one.
pub proof fn lemma_first_occurrence(s: Seq<char>, pattern: Seq<char>, from: int)
    requires
        0 <= from,
    ensures
        match first_occurrence(s, pattern, from) {
            Some(at) => from <= at && occurs_at(s, pattern, at) && forall|j: int|
                from <= j < at ==> !occurs_at(s, pattern, j),
            None => forall|j: int| from <= j ==> !occurs_at(s, pattern, j),
        },
    decreases s.len() + 1 - from,
{
    if from + pattern.len() <= s.len() && !occurs_at(s, pattern, from) {
        lemma_first_occurrence(s, pattern, from + 1);
    }
}

/// Whether `pattern` stands in `chars` at index `at`.
pub fn stands_at(chars: &Vec<char>, pattern: &Vec<char>, at: usize) -> (r: bool)
    ensures
        r == occurs_at(chars@, pattern@, at as int),
{
    if pattern.len() > chars.len() || at > chars.len() - pattern.len() {
        return false;
    }
    let mut k: usize = 0;
    while k < pattern.len()
        invariant
            k <= pattern.len(),
            at + pattern.len() <= chars.len(),
            forall|j: int| 0 <= j < k ==> chars@[at + j] == pattern@[j],
        decreases pattern.len() - k,
    {
        if chars[at + k] != pattern[k] {
            proof {
                assert(chars@.subrange(at as int, at + pattern.len())[k as int] != pattern@[k as int]);
            }
            return false;
        }
        k = k + 1;
    }
    proof {
        assert(chars@.subrange(at as int, at + pattern.len()) =~= pattern@);
    }
    true
}

/// The least index at which `pattern` stands in `chars`.
pub fn find(chars: &Vec<char>, pattern: &Vec<char>) -> (r: Option<usize>)
    ensures
        match r {
            Some(at) => first_occurrence(chars@, pattern@, 0) == Some(at as int),
            None => first_occurrence(chars@, pattern@, 0) is None,
        },
{
    if pattern.len() > chars.len() {
        return None;
    }
    let last: usize = chars.len() - pattern.len();
    let mut at: usize = 0;
    loop
        invariant
            at <= last,
            last == chars.len() - pattern.len(),
            first_occurrence(chars@, pattern@, 0) == first_occurrence(chars@, pattern@, at as int),
        decreases last - at,
    {
        if stands_at(chars, pattern, at) {
            return Some(at);
        }
        if at == last {
            proof {
                assert(first_occurrence(chars@, pattern@, at + 1) is None);
            }
            return None;
        }
        at = at + 1;
    }
}

/// Whether `c` is a decimal digit.
pub open spec fn is_digit(c: char) -> bool {
    '0' <= c <= '9'
}

/// The number that the digit `c` stands for; 0 for any other character.
pub open spec fn digit_value(c: char) -> nat {
    if is_digit(c) {
        (c as u32 - '0' as u32) as nat
    } else {
        0
    }
}

/// Whether `s` holds decimal digits only.
pub open spec fn all_digits(s: Seq<char>) -> bool {
    forall|i: int| 0 <= i < s.len() ==> is_digit(#[trigger] s[i])
}

/// The number that the digits of `s` write in base ten.
pub open spec fn decimal_value(s: Seq<char>) -> nat
    decreases s.len(),
{
    if s.len() == 0 {
        0
    } else {
        decimal_value(s.drop_last()) * 10 + digit_value(s.last())
    }
}

/// The number that `s` writes, where `s` is one or more decimal digits and
/// the number fits in 32 bits.
pub open spec fn parsed_u32(s: Seq<char>) -> Option<u32> {
    if s.len() > 0 && all_digits(s) && decimal_value(s) <= u32::MAX {
        Some(decimal_value(s) as u32)
    } else {
        None
    }
}

/// A number is at least what any of its leading digits write.
pub proof fn lemma_decimal_value_grows(s: Seq<char>, k: int)
    requires
        0 <= k <= s.len(),
    ensures
        decimal_value(s.take(k)) <= decimal_value(s),
    decreases s.len(),
{
    if k < s.len() {
        lemma_decimal_value_grows(s.drop_last(), k);
        assert(s.drop_last().take(k) =~= s.take(k));
    } else {
        assert(s.take(k) =~= s);
    }
}

/// Whether `c` is a decimal digit.
pub fn digit(c: char) -> (r: bool)
    ensures
        r == is_digit(c),
{
    c >= '0' && c <= '9'
}

/// Reads `chars[from..to]` as a decimal number.
pub(crate) fn parse_u32(chars: &Vec<char>, from: usize, to: usize) -> (r: Option<u32>)
    requires
        from <= to <= chars.len(),
    ensures
        r == parsed_u32(chars@.subrange(from as int, to as int)),
{
    let ghost s = chars@.subrange(from as int, to as int);
    if from == to {
        return None;
    }
    let mut value: u64 = 0;
    let mut i: usize = from;
    proof {
        assert(s.take(0) =~= Seq::<char>::empty());
    }
    while i < to
        invariant
            from <= i <= to <= chars.len(),
            s == chars@.subrange(from as int, to as int),
            all_digits(s.take(i - from)),
            value == decimal_value(s.take(i - from)),
            value <= u32::MAX,
        decreases to - i,
    {
        let c = chars[i];
        proof {
            assert(s[i - from] == c);
            assert(s.take(i - from + 1).drop_last() =~= s.take(i - from));
            assert(s.take(i - from + 1).last() == c);
        }
        if !digit(c) {
            return None;
        }
        let d: u64 = (c as u32 - '0' as u32) as u64;
        value = value * 10 + d;
        if value > 0xffff_ffff {
            proof {
                lemma_decimal_value_grows(s, i - from + 1);
            }
            return None;
        }
        i = i + 1;
    }
    proof {
        assert(s.take(to - from) =~= s);
    }
    Some(value as u32)
}

/// Reads `s` as a decimal number: see `parsed_u32`.
pub fn parse_decimal(s: &str) -> (r: Option<u32>)
    ensures
        r == parsed_u32(s@),
{
    let chars = chars_of(s);
    proof {
        assert(chars@.subrange(0, chars.len() as int) =~= chars@);
    }
    parse_u32(&chars, 0, chars.len())
}

/// `s` without the blanks at either end.
pub fn trim(s: &str) -> (out: String)
    ensures
        out@ == trimmed(s@),
{
    let chars = chars_of(s);
    let (from, to) = trim_bounds(&chars, 0, chars.len());
    proof {
        assert(chars@.subrange(0, chars.len() as int) =~= chars@);
    }
    s.substring_char(from, to).to_owned()
}

/// How many decimal digits `s` starts with.
pub open spec fn digit_run(s: Seq<char>) -> nat
    decreases s.len(),
{
    if s.len() > 0 && is_digit(s[0]) {
        1 + digit_run(s.drop_first())
    } else {
        0
    }
}

/// The number that `s` starts with, blanks before it allowed: what its
/// leading digits write, or 0 where it starts with no digit or the number
/// does not fit in 32 bits.
pub open spec fn leading_number(s: Seq<char>) -> u32 {
    let t = trimmed(s);
    match parsed_u32(t.take(digit_run(t) as int)) {
        Some(n) => n,
        None => 0,
    }
}

/// The number that `s` starts with: see `leading_number`.
pub fn read_leading_number(s: &str) -> (n: u32)
    ensures
        n == leading_number(s@),
{
    let chars = chars_of(s);
    let (from, to) = trim_bounds(&chars, 0, chars.len());
    let ghost t = chars@.subrange(from as int, to as int);
    proof {
        assert(chars@.subrange(0, chars.len() as int) =~= chars@);
        assert(t.skip(0) =~= t);
    }
    let mut end: usize = from;
    while end < to && digit(chars[end])
        invariant
            from <= end <= to <= chars.len(),
            t == chars@.subrange(from as int, to as int),
            digit_run(t) == (end - from) + digit_run(t.skip(end - from)),
        decreases to - end,
    {
        proof {
            assert(t.skip(end - from)[0] == chars@[end as int]);
            assert(t.skip(end - from).drop_first() =~= t.skip(end - from + 1));
        }
        end = end + 1;
    }
    proof {
        if end < to {
            assert(t.skip(end - from)[0] == chars@[end as int]);
        }
        assert(chars@.subrange(from as int, end as int) =~= t.take(end - from));
    }
    match parse_u32(&chars, from, end) {
        Some(n) => n,
        None => 0,
    }
}

} // verus!
