//! The search language, stated as a mathematical grammar.
//!
//! Every rule reads a sequence of characters `s` from position `i` and gives
//! `None` when it does not apply there, or `Some((j, v))` with the position
//! `j` just after what it read and the value `v` it read.  Alternatives are
//! tried in order and the first that applies wins; lists are greedy and stop
//! before a separator that is not followed by an element.
use crate::model::{Date, DateOp, MediaType, PriceOp, PriceType, SourceType, SpecCondition, SpecSearch};
use vstd::prelude::*;

verus! {

/// The characters with the Unicode `White_Space` property.
pub open spec fn is_white_space(c: char) -> bool {
    let u = c as u32;
    ||| (0x09 <= u && u <= 0x0d)
    ||| u == 0x20
    ||| u == 0x85
    ||| u == 0xa0
    ||| u == 0x1680
    ||| (0x2000 <= u && u <= 0x200a)
    ||| u == 0x2028
    ||| u == 0x2029
    ||| u == 0x202f
    ||| u == 0x205f
    ||| u == 0x3000
}

/// The characters that a word (tag name, category, keyword, value) may hold:
/// anything but white space and the operators `: ( ) ! | > = <`.
pub open spec fn is_item_char(c: char) -> bool {
    &&& !is_white_space(c)
    &&& c != ':'
    &&& c != '('
    &&& c != ')'
    &&& c != '!'
    &&& c != '|'
    &&& c != '>'
    &&& c != '='
    &&& c != '<'
}

/// Whether position `i` of `s` holds the character `c`.
pub open spec fn has_char(s: Seq<char>, i: int, c: char) -> bool {
    0 <= i < s.len() && s[i] == c
}

/// The end of the longest run of word characters starting at `i`.
pub open spec fn item_end(s: Seq<char>, i: int) -> int
    decreases s.len() - i,
{
    if 0 <= i < s.len() && is_item_char(s[i]) {
        item_end(s, i + 1)
    } else {
        i
    }
}

/// The end of the longest run of spaces and tabs starting at `i`.
pub open spec fn blank_end(s: Seq<char>, i: int) -> int
    decreases s.len() - i,
{
    if 0 <= i < s.len() && (s[i] == ' ' || s[i] == '\t') {
        blank_end(s, i + 1)
    } else {
        i
    }
}

/// `word:word`: the end of the first word, the start and the end of the second.
pub open spec fn spec_whole(s: Seq<char>, i: int) -> Option<(int, int, int)> {
    let a = item_end(s, i);
    if has_char(s, a, ':') {
        Some((a, a + 1, item_end(s, a + 1)))
    } else {
        None
    }
}

pub open spec fn word_source() -> Seq<char> {
    seq!['s', 'o', 'u', 'r', 'c', 'e']
}

pub open spec fn word_fan() -> Seq<char> {
    seq!['f', 'a', 'n']
}

pub open spec fn word_commission() -> Seq<char> {
    seq!['c', 'o', 'm', 'm', 'i', 's', 's', 'i', 'o', 'n']
}

pub open spec fn word_official() -> Seq<char> {
    seq!['o', 'f', 'f', 'i', 'c', 'i', 'a', 'l']
}

pub open spec fn word_media() -> Seq<char> {
    seq!['m', 'e', 'd', 'i', 'a']
}

pub open spec fn word_image() -> Seq<char> {
    seq!['i', 'm', 'a', 'g', 'e']
}

pub open spec fn word_text() -> Seq<char> {
    seq!['t', 'e', 'x', 't']
}

pub open spec fn word_after() -> Seq<char> {
    seq!['a', 'f', 't', 'e', 'r']
}

pub open spec fn word_before() -> Seq<char> {
    seq!['b', 'e', 'f', 'o', 'r', 'e']
}

pub open spec fn word_total() -> Seq<char> {
    seq!['t', 'o', 't', 'a', 'l']
}

pub open spec fn word_base() -> Seq<char> {
    seq!['b', 'a', 's', 'e']
}

pub open spec fn word_tip() -> Seq<char> {
    seq!['t', 'i', 'p']
}

/// The date layout of `after:` and `before:`: month/day/year.
pub open spec fn date_format() -> Seq<char> {
    seq!['%', 'm', '/', '%', 'd', '/', '%', 'Y']
}

/// What `chrono::NaiveDate::parse_from_str(s, fmt)` gives, as (year, month, day).
pub uninterp spec fn naive_date_parse(s: Seq<char>, fmt: Seq<char>) -> Option<(i32, u32, u32)>;

/// The value of a string of decimal digits (`'0'` is U+0030).
pub open spec fn digits_value(d: Seq<char>) -> int
    decreases d.len(),
{
    if d.len() == 0 {
        0
    } else {
        digits_value(d.drop_last()) * 10 + (d.last() as u32 - 0x30)
    }
}

pub open spec fn is_ascii_digit(c: char) -> bool {
    0x30 <= c as u32 && c as u32 <= 0x39
}

pub open spec fn all_digits(d: Seq<char>) -> bool {
    forall|k: int| 0 <= k < d.len() ==> is_ascii_digit(#[trigger] d[k])
}

/// A signed decimal integer, as `i64::from_str` reads it: an optional `+` or
/// `-`, then one or more ASCII digits, within the range of `i64`.
pub open spec fn spec_parse_i64(t: Seq<char>) -> Option<i64> {
    let signed = t.len() > 0 && (t[0] == '+' || t[0] == '-');
    let negative = t.len() > 0 && t[0] == '-';
    let d = if signed {
        t.drop_first()
    } else {
        t
    };
    let v = if negative {
        -digits_value(d)
    } else {
        digits_value(d)
    };
    if d.len() > 0 && all_digits(d) && i64::MIN <= v && v <= i64::MAX {
        Some(v as i64)
    } else {
        None
    }
}

/// `source:fan`, `source:commission`, `source:official`.
pub open spec fn spec_source(s: Seq<char>, i: int) -> Option<(int, SpecCondition)> {
    match spec_whole(s, i) {
        Some((a, b, c)) => {
            let rhs = s.subrange(b, c);
            if s.subrange(i, a) != word_source() {
                None
            } else if rhs == word_fan() {
                Some((c, SpecCondition::Source(SourceType::FanCreation)))
            } else if rhs == word_commission() {
                Some((c, SpecCondition::Source(SourceType::Commission)))
            } else if rhs == word_official() {
                Some((c, SpecCondition::Source(SourceType::Official)))
            } else {
                None
            }
        },
        None => None,
    }
}

/// `media:image`, `media:text`.
pub open spec fn spec_media(s: Seq<char>, i: int) -> Option<(int, SpecCondition)> {
    match spec_whole(s, i) {
        Some((a, b, c)) => {
            let rhs = s.subrange(b, c);
            if s.subrange(i, a) != word_media() {
                None
            } else if rhs == word_image() {
                Some((c, SpecCondition::Media(MediaType::Image)))
            } else if rhs == word_text() {
                Some((c, SpecCondition::Media(MediaType::Text)))
            } else {
                None
            }
        },
        None => None,
    }
}

/// The comparison that a keyword of `after:`/`before:` names.
pub open spec fn spec_date_op(w: Seq<char>) -> Option<DateOp> {
    if w == word_after() {
        Some(DateOp::After)
    } else if w == word_before() {
        Some(DateOp::Before)
    } else {
        None
    }
}

/// The condition `after:`/`before:` make of a keyword and a parsed date.
pub open spec fn spec_date_condition(w: Seq<char>, date: Option<(i32, u32, u32)>) -> Option<
    SpecCondition,
> {
    match (spec_date_op(w), date) {
        (Some(op), Some((y, m, d))) => Some(
            SpecCondition::DateAdded(op, Date { year: y, month: m, day: d }),
        ),
        _ => None,
    }
}

/// `after:MM/DD/YYYY`, `before:MM/DD/YYYY`.
pub open spec fn spec_added(s: Seq<char>, i: int) -> Option<(int, SpecCondition)> {
    match spec_whole(s, i) {
        Some((a, b, c)) => match spec_date_condition(
            s.subrange(i, a),
            naive_date_parse(s.subrange(b, c), date_format()),
        ) {
            Some(cond) => Some((c, cond)),
            None => None,
        },
        None => None,
    }
}

/// `total>=N`, `base<=N`, `tip>=N`, ...
pub open spec fn spec_price(s: Seq<char>, i: int) -> Option<(int, SpecCondition)> {
    let a = item_end(s, i);
    let op = if has_char(s, a, '<') && has_char(s, a + 1, '=') {
        Some(PriceOp::LesserEqual)
    } else if has_char(s, a, '>') && has_char(s, a + 1, '=') {
        Some(PriceOp::GreaterEqual)
    } else {
        None
    };
    let c = item_end(s, a + 2);
    let lhs = s.subrange(i, a);
    let ty = if lhs == word_total() {
        Some(PriceType::Total)
    } else if lhs == word_base() {
        Some(PriceType::Base)
    } else if lhs == word_tip() {
        Some(PriceType::Tip)
    } else {
        None
    };
    match (op, ty, spec_parse_i64(s.subrange(a + 2, c))) {
        (Some(op), Some(ty), Some(v)) => Some((c, SpecCondition::Price(ty, op, v))),
        _ => None,
    }
}

/// A bare tag name: one or more word characters.
pub open spec fn spec_tag(s: Seq<char>, i: int) -> Option<(int, SpecCondition)> {
    let a = item_end(s, i);
    if a > i {
        Some((a, SpecCondition::Tag(s.subrange(i, a))))
    } else {
        None
    }
}

/// `category:tag`, or `:tag` for a tag outside any category.
pub open spec fn spec_tag_with_category(s: Seq<char>, i: int) -> Option<(int, SpecCondition)> {
    match spec_whole(s, i) {
        Some((a, b, c)) => Some(
            (
                c,
                SpecCondition::TagWithCategory(
                    if a > i {
                        Some(s.subrange(i, a))
                    } else {
                        None
                    },
                    s.subrange(b, c),
                ),
            ),
        ),
        None => None,
    }
}

/// Any single condition; the first kind that applies wins.
pub open spec fn spec_condition(s: Seq<char>, i: int) -> Option<(int, SpecCondition)> {
    if spec_source(s, i) is Some {
        spec_source(s, i)
    } else if spec_media(s, i) is Some {
        spec_media(s, i)
    } else if spec_added(s, i) is Some {
        spec_added(s, i)
    } else if spec_price(s, i) is Some {
        spec_price(s, i)
    } else if spec_tag_with_category(s, i) is Some {
        spec_tag_with_category(s, i)
    } else {
        spec_tag(s, i)
    }
}

/// A condition, as a search.
pub open spec fn spec_test(s: Seq<char>, i: int) -> Option<(int, SpecSearch)> {
    match spec_condition(s, i) {
        Some((j, c)) => Some((j, SpecSearch::Test(c))),
        None => None,
    }
}

/// The first of two results that applies.
pub open spec fn first_of<A>(x: Option<A>, y: Option<A>) -> Option<A> {
    if x is Some {
        x
    } else {
        y
    }
}

/// A whole search: a conjunction, a disjunction, a group, a negation or a condition.
pub open spec fn spec_search(s: Seq<char>, i: int) -> Option<(int, SpecSearch)>
    decreases s.len() - i, 6int,
{
    first_of(
        spec_and(s, i),
        first_of(
            spec_or(s, i),
            first_of(spec_paren(s, i), first_of(spec_negate(s, i), spec_test(s, i))),
        ),
    )
}

/// Two or more operands separated by spaces or tabs.
pub open spec fn spec_and(s: Seq<char>, i: int) -> Option<(int, SpecSearch)>
    decreases s.len() - i, 5int,
{
    match spec_and_operand(s, i) {
        Some((j, v)) => if i < j <= s.len() {
            let (k, rest) = spec_and_rest(s, j);
            let all = seq![v] + rest;
            if all.len() >= 2 {
                Some((k, SpecSearch::And(all)))
            } else {
                None
            }
        } else {
            None
        },
        None => None,
    }
}

/// An operand of a conjunction: a disjunction, a group, a negation or a condition.
pub open spec fn spec_and_operand(s: Seq<char>, i: int) -> Option<(int, SpecSearch)>
    decreases s.len() - i, 4int,
{
    first_of(
        spec_or(s, i),
        first_of(spec_paren(s, i), first_of(spec_negate(s, i), spec_test(s, i))),
    )
}

/// The further operands of a conjunction, each after a run of spaces and tabs.
pub open spec fn spec_and_rest(s: Seq<char>, j: int) -> (int, Seq<SpecSearch>)
    decreases s.len() - j, 0int,
{
    let k = blank_end(s, j);
    if j < k <= s.len() {
        match spec_and_operand(s, k) {
            Some((m, v)) => if k < m <= s.len() {
                let (e, rest) = spec_and_rest(s, m);
                (e, seq![v] + rest)
            } else {
                (j, Seq::empty())
            },
            None => (j, Seq::empty()),
        }
    } else {
        (j, Seq::empty())
    }
}

/// Two or more operands separated by `|`.
pub open spec fn spec_or(s: Seq<char>, i: int) -> Option<(int, SpecSearch)>
    decreases s.len() - i, 3int,
{
    match spec_unary(s, i) {
        Some((j, v)) => if i < j <= s.len() {
            let (k, rest) = spec_or_rest(s, j);
            let all = seq![v] + rest;
            if all.len() >= 2 {
                Some((k, SpecSearch::Or(all)))
            } else {
                None
            }
        } else {
            None
        },
        None => None,
    }
}

/// An operand of a disjunction or of a negation: a group, a negation or a condition.
pub open spec fn spec_unary(s: Seq<char>, i: int) -> Option<(int, SpecSearch)>
    decreases s.len() - i, 2int,
{
    first_of(spec_paren(s, i), first_of(spec_negate(s, i), spec_test(s, i)))
}

/// The further operands of a disjunction, each after a `|`.
pub open spec fn spec_or_rest(s: Seq<char>, j: int) -> (int, Seq<SpecSearch>)
    decreases s.len() - j, 0int,
{
    if has_char(s, j, '|') {
        match spec_unary(s, j + 1) {
            Some((m, v)) => if j < m <= s.len() {
                let (e, rest) = spec_or_rest(s, m);
                (e, seq![v] + rest)
            } else {
                (j, Seq::empty())
            },
            None => (j, Seq::empty()),
        }
    } else {
        (j, Seq::empty())
    }
}

/// A search in parentheses.
pub open spec fn spec_paren(s: Seq<char>, i: int) -> Option<(int, SpecSearch)>
    decreases s.len() - i, 1int,
{
    if has_char(s, i, '(') {
        match spec_search(s, i + 1) {
            Some((j, v)) => if has_char(s, j, ')') {
                Some((j + 1, v))
            } else {
                None
            },
            None => None,
        }
    } else {
        None
    }
}

/// `!` followed by a group, a negation or a condition.
pub open spec fn spec_negate(s: Seq<char>, i: int) -> Option<(int, SpecSearch)>
    decreases s.len() - i, 1int,
{
    if has_char(s, i, '!') {
        match spec_unary(s, i + 1) {
            Some((j, v)) => Some((j, SpecSearch::Negate(Box::new(v)))),
            None => None,
        }
    } else {
        None
    }
}

/// What a rule gives on a whole text, as the text left unread and the value read.
pub open spec fn rest_and_value<A>(s: Seq<char>, r: Option<(int, A)>) -> Option<(Seq<char>, A)> {
    match r {
        Some((j, v)) => Some((s.subrange(j, s.len() as int), v)),
        None => None,
    }
}

} // verus!
