//! The calls that leave this crate. Their contracts are taken on trust.

use crate::pandoc::texts;
use vstd::arithmetic::power::pow;
use vstd::prelude::*;

verus! {

/// The sixteen hexadecimal digits, in lower case.
pub open spec fn hex_digits() -> Seq<char> {
    seq!['0', '1', '2', '3', '4', '5', '6', '7', '8', '9', 'a', 'b', 'c', 'd', 'e', 'f']
}

/// The hexadecimal digit of `id` at place `k`, counted from the most
/// significant of its thirty-two digits.
pub open spec fn uuid_digit(id: u128, k: int) -> char {
    hex_digits()[(id as int / pow(16, (31 - k) as nat)) % 16]
}

/// How many hyphens stand before place `i` of a hyphenated UUID.
pub open spec fn hyphens_before(i: int) -> int {
    if i > 23 {
        4
    } else if i > 18 {
        3
    } else if i > 13 {
        2
    } else if i > 8 {
        1
    } else {
        0
    }
}

/// The hyphenated text of the UUID with the 128-bit value `id`: its
/// thirty-two hexadecimal digits in lower case, the most significant first,
/// in groups of 8, 4, 4, 4 and 12 with a hyphen between them.
pub open spec fn uuid_text(id: u128) -> Seq<char> {
    Seq::new(
        36,
        |i: int|
            if i == 8 || i == 13 || i == 18 || i == 23 {
                '-'
            } else {
                uuid_digit(id, i - hyphens_before(i))
            },
    )
}

/// `uuid::Uuid::to_string`, on the UUID that `uuid::Uuid::from_u128` makes of
/// `id`: the crate prints a UUID in its hyphenated lower-case form.
#[verifier::external_body]
pub(crate) fn uuid_to_string(id: u128) -> (s: String)
    ensures
        s@ == uuid_text(id),
{
    uuid::Uuid::from_u128(id).to_string()
}

/// The parts in order, with `sep` between each two neighbours.
pub open spec fn joined(parts: Seq<Seq<char>>, sep: Seq<char>) -> Seq<char>
    decreases parts.len(),
{
    if parts.len() == 0 {
        seq![]
    } else if parts.len() == 1 {
        parts[0]
    } else {
        joined(parts.drop_last(), sep) + sep + parts.last()
    }
}

/// `itertools::join`, on strings: it writes the first part, then `sep` and the
/// next part for each part that follows, and gives the empty string for no
/// parts.
#[verifier::external_body]
pub(crate) fn join(parts: Vec<String>, sep: &str) -> (s: String)
    ensures
        s@ == joined(texts(parts@), sep@),
{
    itertools::join(parts, sep)
}

/// Whether the `regex` crate finds a match of `pattern` anywhere in `text`;
/// `None` where it does not accept `pattern` as a regular expression.
pub uninterp spec fn regex_match(pattern: Seq<char>, text: Seq<char>) -> Option<bool>;

/// `regex::Regex::is_match`, on the expression that `regex::Regex::new`
/// compiles from `pattern`. Both depend on their arguments alone; the answer
/// is known here only by its name.
#[verifier::external_body]
pub(crate) fn regex_is_match(pattern: &str, text: &str) -> (r: Option<bool>)
    ensures
        r == regex_match(pattern@, text@),
{
    match regex::Regex::new(pattern) {
        Ok(re) => Some(re.is_match(text)),
        Err(_) => None,
    }
}

/// `String::push`: the character is added at the end.
#[verifier::external_body]
pub(crate) fn push_char(s: &mut String, c: char)
    ensures
        final(s)@ == old(s)@.push(c),
{
    s.push(c)
}

/// `s` with every occurrence of `from` replaced by `to`: the occurrences
/// are found from the left, and none overlaps the one before it.
pub open spec fn replaced(s: Seq<char>, from: Seq<char>, to: Seq<char>) -> Seq<char>
    decreases s.len(),
{
    if from.len() == 0 || s.len() < from.len() {
        s
    } else if s.take(from.len() as int) == from {
        to + replaced(s.skip(from.len() as int), from, to)
    } else {
        seq![s[0]] + replaced(s.skip(1), from, to)
    }
}

/// `str::replace` with a string as its pattern: all matches of a pattern
/// that is not empty are replaced.
#[verifier::external_body]
pub(crate) fn replace(s: &str, from: &str, to: &str) -> (r: String)
    requires
        from@.len() > 0,
    ensures
        r@ == replaced(s@, from@, to@),
{
    s.replace(from, to)
}

/// The texts of a sequence of optional strings.
pub open spec fn optional_texts(s: Seq<Option<String>>) -> Seq<Option<Seq<char>>> {
    Seq::new(
        s.len(),
        |i: int|
            match s[i] {
                Some(text) => Some(text@),
                None => None,
            },
    )
}

/// For each element of the document `html` that the CSS selector `selector`
/// matches, in the order of the document, the value of its attribute `attr`
/// if it has one, as the `scraper` crate finds them; `None` where it does
/// not accept `selector`.
pub uninterp spec fn selected_attrs(html: Seq<char>, selector: Seq<char>, attr: Seq<char>) -> Option<
    Seq<Option<Seq<char>>>,
>;

/// `scraper::Html::select` on the document that `scraper::Html::parse_document`
/// reads from `html`, with the selector that `scraper::Selector::parse` reads
/// from `selector`, and `scraper::node::Element::attr` on each element found.
/// All of them depend on their arguments alone; the answer is known here
/// only by its name.
#[verifier::external_body]
pub(crate) fn select_attrs(html: &str, selector: &str, attr: &str) -> (r: Option<Vec<Option<String>>>)
    ensures
        selected_attrs(html@, selector@, attr@) == match r {
            Some(found) => Some(optional_texts(found@)),
            None => None,
        },
{
    let document = scraper::Html::parse_document(html);
    match scraper::Selector::parse(selector) {
        Ok(selector) => {
            let mut found = Vec::new();
            for element in document.select(&selector) {
                found.push(element.value().attr(attr).map(str::to_string));
            }
            Some(found)
        },
        Err(_) => None,
    }
}

} // verus!
