//! The search-language parser: executable code held to the grammar of
//! [`crate::grammar`].
use crate::grammar::{
    all_digits, blank_end, date_format, digits_value, first_of, has_char, is_ascii_digit,
    is_item_char, is_white_space, item_end, naive_date_parse, rest_and_value, spec_added,
    spec_and, spec_and_operand, spec_and_rest, spec_condition, spec_date_condition, spec_date_op,
    spec_media, spec_negate, spec_or, spec_or_rest, spec_paren, spec_parse_i64, spec_price,
    spec_search, spec_source, spec_tag, spec_tag_with_category, spec_test, spec_unary, spec_whole,
    word_after, word_base, word_before, word_commission, word_fan, word_image, word_media,
    word_official, word_source, word_text, word_tip, word_total,
};
use crate::model::{
    Condition, Date, DateOp, MediaType, PriceOp, PriceType, Search, SourceType, SpecCondition,
    SpecSearch,
};
use vstd::string::StrSliceExecFns;
use chrono::Datelike;
use vstd::prelude::*;

verus! {

/// Calls `chrono::NaiveDate::parse_from_str(s, fmt)`.  Trusted: the result,
/// as (year, month, day), is what `naive_date_parse` names for these two
/// texts, and `None` when chrono reports an error.
#[verifier::external_body]
fn naive_date_parse_from_str(s: &str, fmt: &str) -> (r: Option<(i32, u32, u32)>)
    ensures
        r == naive_date_parse(s@, fmt@),
{
    match chrono::NaiveDate::parse_from_str(s, fmt) {
        Ok(d) => Some((d.year(), d.month(), d.day())),
        Err(_) => None,
    }
}

/// The date layout of `after:` and `before:`, as text.
fn date_format_text() -> (f: &'static str)
    ensures
        f@ == date_format(),
{
    let f = "%m/%d/%Y";
    proof {
        reveal_strlit("%m/%d/%Y");
    }
    f
}

} // verus!

verus! {

/// Whether `c` has the Unicode `White_Space` property.
pub fn is_white_space_char(c: char) -> (b: bool)
    ensures
        b == is_white_space(c),
{
    let u = c as u32;
    (0x09 <= u && u <= 0x0d) || u == 0x20 || u == 0x85 || u == 0xa0 || u == 0x1680 || (0x2000
        <= u && u <= 0x200a) || u == 0x2028 || u == 0x2029 || u == 0x202f || u == 0x205f || u
        == 0x3000
}

/// Whether `c` may stand in a word.
pub fn is_item_char_exec(c: char) -> (b: bool)
    ensures
        b == is_item_char(c),
{
    !is_white_space_char(c) && c != ':' && c != '(' && c != ')' && c != '!' && c != '|' && c
        != '>' && c != '=' && c != '<'
}

/// The characters of a text.
pub fn chars_of(input: &str) -> (v: Vec<char>)
    ensures
        v@ == input@,
{
    let n = input.unicode_len();
    let mut v: Vec<char> = Vec::new();
    let mut k: usize = 0;
    while k < n
        invariant
            n == input@.len(),
            k <= n,
            v@ == input@.subrange(0, k as int),
        decreases n - k,
    {
        let c = input.get_char(k);
        v.push(c);
        k = k + 1;
        assert(v@ =~= input@.subrange(0, k as int));
    }
    assert(v@ =~= input@);
    v
}

/// Whether `s[i..j]` spells `w`.
fn segment_eq(s: &Vec<char>, i: usize, j: usize, w: &[char]) -> (b: bool)
    requires
        i <= j <= s.len(),
    ensures
        b == (s@.subrange(i as int, j as int) == w@),
{
    if j - i != w.len() {
        assert(s@.subrange(i as int, j as int).len() != w@.len());
        return false;
    }
    let mut k: usize = 0;
    while k < w.len()
        invariant
            i <= j <= s.len(),
            j - i == w@.len(),
            k <= w@.len(),
            forall|t: int| 0 <= t < k ==> s@[i + t] == w@[t],
        decreases w.len() - k,
    {
        if s[i + k] != w[k] {
            assert(s@.subrange(i as int, j as int)[k as int] != w@[k as int]);
            return false;
        }
        k = k + 1;
    }
    assert(s@.subrange(i as int, j as int) =~= w@);
    true
}

/// The end of the word starting at `i`.
fn item_end_at(s: &Vec<char>, i: usize) -> (r: usize)
    requires
        i <= s.len(),
    ensures
        r == item_end(s@, i as int),
        i <= r <= s.len(),
{
    let mut k = i;
    while k < s.len() && is_item_char_exec(s[k])
        invariant
            i <= k <= s.len(),
            item_end(s@, k as int) == item_end(s@, i as int),
        decreases s.len() - k,
    {
        k = k + 1;
    }
    k
}

/// The end of the run of spaces and tabs starting at `i`.
fn blank_end_at(s: &Vec<char>, i: usize) -> (r: usize)
    requires
        i <= s.len(),
    ensures
        r == blank_end(s@, i as int),
        i <= r <= s.len(),
{
    let mut k = i;
    while k < s.len() && (s[k] == ' ' || s[k] == '\t')
        invariant
            i <= k <= s.len(),
            blank_end(s@, k as int) == blank_end(s@, i as int),
        decreases s.len() - k,
    {
        k = k + 1;
    }
    k
}

/// Whether position `i` holds `c`.
fn has_char_at(s: &Vec<char>, i: usize, c: char) -> (b: bool)
    ensures
        b == has_char(s@, i as int, c),
{
    i < s.len() && s[i] == c
}

} // verus!

verus! {

/// The model of a condition parser's result.
pub open spec fn cond_view(r: Option<(usize, Condition)>) -> Option<(int, SpecCondition)> {
    match r {
        Some((j, c)) => Some((j as int, c@)),
        None => None,
    }
}

/// The model of a search parser's result.
pub open spec fn search_view(r: Option<(usize, Search)>) -> Option<(int, SpecSearch)> {
    match r {
        Some((j, v)) => Some((j as int, v@)),
        None => None,
    }
}

/// A successful result ends after `i` and within the text.
pub open spec fn advances<A>(r: Option<(usize, A)>, i: usize, n: int) -> bool {
    r matches Some((j, _)) ==> i < j && j <= n
}

/// The text of positions `i..j`.
fn text_of(input: &str, i: usize, j: usize) -> (t: String)
    requires
        i <= j <= input@.len(),
    ensures
        t@ == input@.subrange(i as int, j as int),
{
    input.substring_char(i, j).to_owned()
}

/// `word:word`, as the end of the first word and the start and end of the second.
fn whole_at(s: &Vec<char>, i: usize) -> (r: Option<(usize, usize, usize)>)
    requires
        i <= s.len(),
    ensures
        match spec_whole(s@, i as int) {
            Some((a, b, c)) => r matches Some((x, y, z)) && x == a && y == b && z == c,
            None => r is None,
        },
        r matches Some((a, b, c)) ==> i <= a && b == a + 1 && b <= c && c <= s.len(),
{
    let a = item_end_at(s, i);
    if has_char_at(s, a, ':') {
        let c = item_end_at(s, a + 1);
        Some((a, a + 1, c))
    } else {
        None
    }
}

fn source_at(s: &Vec<char>, i: usize) -> (r: Option<(usize, Condition)>)
    requires
        i <= s.len(),
    ensures
        cond_view(r) == spec_source(s@, i as int),
        advances(r, i, s@.len() as int),
{
    match whole_at(s, i) {
        Some((a, b, c)) => {
            assert(['s', 'o', 'u', 'r', 'c', 'e']@ =~= word_source());
            assert(['f', 'a', 'n']@ =~= word_fan());
            assert(['c', 'o', 'm', 'm', 'i', 's', 's', 'i', 'o', 'n']@ =~= word_commission());
            assert(['o', 'f', 'f', 'i', 'c', 'i', 'a', 'l']@ =~= word_official());
            if !segment_eq(s, i, a, &['s', 'o', 'u', 'r', 'c', 'e']) {
                None
            } else if segment_eq(s, b, c, &['f', 'a', 'n']) {
                Some((c, Condition::Source(SourceType::FanCreation)))
            } else if segment_eq(s, b, c, &['c', 'o', 'm', 'm', 'i', 's', 's', 'i', 'o', 'n']) {
                Some((c, Condition::Source(SourceType::Commission)))
            } else if segment_eq(s, b, c, &['o', 'f', 'f', 'i', 'c', 'i', 'a', 'l']) {
                Some((c, Condition::Source(SourceType::Official)))
            } else {
                None
            }
        },
        None => None,
    }
}

} // verus!

verus! {

fn media_at(s: &Vec<char>, i: usize) -> (r: Option<(usize, Condition)>)
    requires
        i <= s.len(),
    ensures
        cond_view(r) == spec_media(s@, i as int),
        advances(r, i, s@.len() as int),
{
    match whole_at(s, i) {
        Some((a, b, c)) => {
            assert(['m', 'e', 'd', 'i', 'a']@ =~= word_media());
            assert(['i', 'm', 'a', 'g', 'e']@ =~= word_image());
            assert(['t', 'e', 'x', 't']@ =~= word_text());
            if !segment_eq(s, i, a, &['m', 'e', 'd', 'i', 'a']) {
                None
            } else if segment_eq(s, b, c, &['i', 'm', 'a', 'g', 'e']) {
                Some((c, Condition::Media(MediaType::Image)))
            } else if segment_eq(s, b, c, &['t', 'e', 'x', 't']) {
                Some((c, Condition::Media(MediaType::Text)))
            } else {
                None
            }
        },
        None => None,
    }
}

/// The comparison that the keyword `after` or `before` names, if `keyword` is one of them.
pub fn date_op(keyword: &str) -> (r: Option<DateOp>)
    ensures
        r == spec_date_op(keyword@),
{
    let k = chars_of(keyword);
    assert(['a', 'f', 't', 'e', 'r']@ =~= word_after());
    assert(['b', 'e', 'f', 'o', 'r', 'e']@ =~= word_before());
    assert(k@.subrange(0, k@.len() as int) =~= k@);
    if segment_eq(&k, 0, k.len(), &['a', 'f', 't', 'e', 'r']) {
        Some(DateOp::After)
    } else if segment_eq(&k, 0, k.len(), &['b', 'e', 'f', 'o', 'r', 'e']) {
        Some(DateOp::Before)
    } else {
        None
    }
}

/// The condition that `keyword:date` stands for, given the keyword and the
/// date read from the text after the colon (`None` when it is no date).
pub fn date_condition(keyword: &str, date: Option<(i32, u32, u32)>) -> (r: Option<Condition>)
    ensures
        match spec_date_condition(keyword@, date) {
            Some(c) => r matches Some(x) && x@ == c,
            None => r is None,
        },
{
    match (date_op(keyword), date) {
        (Some(op), Some((y, m, d))) => Some(Condition::DateAdded(op, Date::from_ymd(y, m, d))),
        _ => None,
    }
}

fn added_at(input: &str, s: &Vec<char>, i: usize) -> (r: Option<(usize, Condition)>)
    requires
        i <= s.len(),
        s@ == input@,
    ensures
        cond_view(r) == spec_added(s@, i as int),
        advances(r, i, s@.len() as int),
{
    match whole_at(s, i) {
        Some((a, b, c)) => {
            let keyword = input.substring_char(i, a);
            let date = naive_date_parse_from_str(input.substring_char(b, c), date_format_text());
            match date_condition(keyword, date) {
                Some(cond) => Some((c, cond)),
                None => None,
            }
        },
        None => None,
    }
}

/// Whether `c` is an ASCII decimal digit.
pub(crate) fn is_ascii_digit_exec(c: char) -> (b: bool)
    ensures
        b == is_ascii_digit(c),
{
    0x30 <= c as u32 && c as u32 <= 0x39
}

/// What `i64::from_str` gives for the digits `d` after the sign.
spec fn signed_value(negative: bool, d: Seq<char>) -> Option<i64> {
    let v = if negative {
        -digits_value(d)
    } else {
        digits_value(d)
    };
    if d.len() > 0 && all_digits(d) && i64::MIN <= v && v <= i64::MAX {
        Some(v as i64)
    } else {
        None
    }
}

/// The value of the digits `s[i..k]`, capped at `2^63 + 1`.
pub(crate) open spec fn capped_value(s: Seq<char>, i: int, k: int) -> int {
    let v = digits_value(s.subrange(i, k));
    if v < 0x8000_0000_0000_0001 {
        v
    } else {
        0x8000_0000_0000_0001
    }
}

/// The signed decimal integer `s[i..j]`, read as `i64::from_str` reads it.
fn parse_i64_at(s: &Vec<char>, i: usize, j: usize) -> (r: Option<i64>)
    requires
        i <= j <= s.len(),
    ensures
        r == spec_parse_i64(s@.subrange(i as int, j as int)),
{
    let ghost t = s@.subrange(i as int, j as int);
    let mut k = i;
    let mut negative = false;
    if k < j && (s[k] == '+' || s[k] == '-') {
        negative = s[k] == '-';
        k = k + 1;
        assert(t.drop_first() =~= s@.subrange(k as int, j as int));
    } else {
        assert(t =~= s@.subrange(k as int, j as int));
    }
    if k >= j {
        return None;
    }
    let d0 = k;
    let ghost d = s@.subrange(d0 as int, j as int);
    assert(spec_parse_i64(t) == signed_value(negative, d));
    let mut acc: u128 = 0;
    assert(s@.subrange(d0 as int, d0 as int) =~= Seq::<char>::empty());
    while k < j
        invariant
            i <= d0 <= k <= j <= s.len(),
            d == s@.subrange(d0 as int, j as int),
            t == s@.subrange(i as int, j as int),
            spec_parse_i64(t) == signed_value(negative, d),
            acc == capped_value(s@, d0 as int, k as int),
            forall|t: int| d0 <= t < k ==> is_ascii_digit(#[trigger] s@[t]),
        decreases j - k,
    {
        let c = s[k];
        if !is_ascii_digit_exec(c) {
            assert(!all_digits(d)) by {
                assert(d[k - d0] == c);
            }
            assert(signed_value(negative, d) is None);
            return None;
        }
        let digit = (c as u32 - 0x30) as u128;
        let ghost prev = digits_value(s@.subrange(d0 as int, k as int));
        assert(s@.subrange(d0 as int, k + 1).drop_last() =~= s@.subrange(d0 as int, k as int));
        assert(s@.subrange(d0 as int, k + 1).last() == c);
        assert(digits_value(s@.subrange(d0 as int, k + 1)) == prev * 10 + digit);
        if acc >= 0x8000_0000_0000_0001 {
            assert(prev >= 0x8000_0000_0000_0001);
            assert(prev * 10 + digit >= 0x8000_0000_0000_0001) by (nonlinear_arith)
                requires
                    prev >= 0x8000_0000_0000_0001,
                    digit >= 0,
            ;
        } else {
            let next = acc * 10 + digit;
            if next >= 0x8000_0000_0000_0001 {
                acc = 0x8000_0000_0000_0001;
            } else {
                acc = next;
            }
        }
        k = k + 1;
    }
    assert(all_digits(s@.subrange(d0 as int, j as int)));
    let ghost dv = digits_value(s@.subrange(d0 as int, j as int));
    if negative {
        if acc <= 0x8000_0000_0000_0000 {
            Some((-(acc as i128)) as i64)
        } else {
            None
        }
    } else {
        if acc <= 0x7fff_ffff_ffff_ffff {
            Some(acc as i64)
        } else {
            None
        }
    }
}

/// The signed decimal integer that `text` spells, read as `i64::from_str` reads it.
pub fn parse_i64(text: &str) -> (r: Option<i64>)
    ensures
        r == spec_parse_i64(text@),
{
    let s = chars_of(text);
    assert(s@.subrange(0, s@.len() as int) =~= s@);
    parse_i64_at(&s, 0, s.len())
}

} // verus!

verus! {

fn price_at(s: &Vec<char>, i: usize) -> (r: Option<(usize, Condition)>)
    requires
        i <= s.len(),
    ensures
        cond_view(r) == spec_price(s@, i as int),
        advances(r, i, s@.len() as int),
{
    let a = item_end_at(s, i);
    let op = if has_char_at(s, a, '<') && has_char_at(s, a + 1, '=') {
        Some(PriceOp::LesserEqual)
    } else if has_char_at(s, a, '>') && has_char_at(s, a + 1, '=') {
        Some(PriceOp::GreaterEqual)
    } else {
        None
    };
    match op {
        None => None,
        Some(op) => {
            assert(['t', 'o', 't', 'a', 'l']@ =~= word_total());
            assert(['b', 'a', 's', 'e']@ =~= word_base());
            assert(['t', 'i', 'p']@ =~= word_tip());
            let c = item_end_at(s, a + 2);
            let ty = if segment_eq(s, i, a, &['t', 'o', 't', 'a', 'l']) {
                Some(PriceType::Total)
            } else if segment_eq(s, i, a, &['b', 'a', 's', 'e']) {
                Some(PriceType::Base)
            } else if segment_eq(s, i, a, &['t', 'i', 'p']) {
                Some(PriceType::Tip)
            } else {
                None
            };
            match (ty, parse_i64_at(s, a + 2, c)) {
                (Some(ty), Some(v)) => Some((c, Condition::Price(ty, op, v))),
                _ => None,
            }
        },
    }
}

fn tag_at(input: &str, s: &Vec<char>, i: usize) -> (r: Option<(usize, Condition)>)
    requires
        i <= s.len(),
        s@ == input@,
    ensures
        cond_view(r) == spec_tag(s@, i as int),
        advances(r, i, s@.len() as int),
{
    let a = item_end_at(s, i);
    if a > i {
        Some((a, Condition::Tag(text_of(input, i, a))))
    } else {
        None
    }
}

fn tag_with_category_at(input: &str, s: &Vec<char>, i: usize) -> (r: Option<(usize, Condition)>)
    requires
        i <= s.len(),
        s@ == input@,
    ensures
        cond_view(r) == spec_tag_with_category(s@, i as int),
        advances(r, i, s@.len() as int),
{
    match whole_at(s, i) {
        Some((a, b, c)) => {
            let category = if a > i {
                Some(text_of(input, i, a))
            } else {
                None
            };
            Some((c, Condition::TagWithCategory(category, text_of(input, b, c))))
        },
        None => None,
    }
}

fn condition_at(input: &str, s: &Vec<char>, i: usize) -> (r: Option<(usize, Condition)>)
    requires
        i <= s.len(),
        s@ == input@,
    ensures
        cond_view(r) == spec_condition(s@, i as int),
        advances(r, i, s@.len() as int),
{
    let r = source_at(s, i);
    if r.is_some() {
        return r;
    }
    let r = media_at(s, i);
    if r.is_some() {
        return r;
    }
    let r = added_at(input, s, i);
    if r.is_some() {
        return r;
    }
    let r = price_at(s, i);
    if r.is_some() {
        return r;
    }
    let r = tag_with_category_at(input, s, i);
    if r.is_some() {
        return r;
    }
    tag_at(input, s, i)
}

fn test_at(input: &str, s: &Vec<char>, i: usize) -> (r: Option<(usize, Search)>)
    requires
        i <= s.len(),
        s@ == input@,
    ensures
        search_view(r) == spec_test(s@, i as int),
        advances(r, i, s@.len() as int),
{
    match condition_at(input, s, i) {
        Some((j, c)) => Some((j, Search::Test(c))),
        None => None,
    }
}

} // verus!

verus! {

/// Joins one leading operand and the operands after it.
fn cons(v: Search, rest: Vec<Search>) -> (all: Vec<Search>)
    ensures
        Search::view_list(all@) == seq![v@] + Search::view_list(rest@),
        all@.len() == rest@.len() + 1,
{
    let mut all: Vec<Search> = Vec::new();
    let mut rest = rest;
    let ghost r0 = rest@;
    all.push(v);
    all.append(&mut rest);
    proof {
        Search::lemma_view_list_concat(seq![v], r0);
        Search::lemma_view_list_single(v);
        assert(all@ == seq![v] + r0);
    }
    all
}

fn search_at(input: &str, s: &Vec<char>, i: usize) -> (r: Option<(usize, Search)>)
    requires
        i <= s.len(),
        s@ == input@,
    ensures
        search_view(r) == spec_search(s@, i as int),
        advances(r, i, s@.len() as int),
    decreases s@.len() - i, 6int,
{
    let r = and_at(input, s, i);
    if r.is_some() {
        return r;
    }
    let r = or_at(input, s, i);
    if r.is_some() {
        return r;
    }
    let r = paren_at(input, s, i);
    if r.is_some() {
        return r;
    }
    let r = negate_at(input, s, i);
    if r.is_some() {
        return r;
    }
    test_at(input, s, i)
}

fn and_at(input: &str, s: &Vec<char>, i: usize) -> (r: Option<(usize, Search)>)
    requires
        i <= s.len(),
        s@ == input@,
    ensures
        search_view(r) == spec_and(s@, i as int),
        advances(r, i, s@.len() as int),
    decreases s@.len() - i, 5int,
{
    match and_operand_at(input, s, i) {
        Some((j, v)) => {
            let (k, rest) = and_rest_at(input, s, j);
            let all = cons(v, rest);
            if all.len() >= 2 {
                Some((k, Search::And(all)))
            } else {
                None
            }
        },
        None => None,
    }
}

fn and_operand_at(input: &str, s: &Vec<char>, i: usize) -> (r: Option<(usize, Search)>)
    requires
        i <= s.len(),
        s@ == input@,
    ensures
        search_view(r) == spec_and_operand(s@, i as int),
        advances(r, i, s@.len() as int),
    decreases s@.len() - i, 4int,
{
    let r = or_at(input, s, i);
    if r.is_some() {
        return r;
    }
    unary_at(input, s, i)
}

fn and_rest_at(input: &str, s: &Vec<char>, j: usize) -> (r: (usize, Vec<Search>))
    requires
        j <= s.len(),
        s@ == input@,
    ensures
        r.0 as int == spec_and_rest(s@, j as int).0,
        Search::view_list(r.1@) == spec_and_rest(s@, j as int).1,
        j <= r.0 <= s.len(),
    decreases s@.len() - j, 0int,
{
    let k = blank_end_at(s, j);
    if j < k {
        match and_operand_at(input, s, k) {
            Some((m, v)) => {
                let (e, rest) = and_rest_at(input, s, m);
                (e, cons(v, rest))
            },
            None => {
                let none: Vec<Search> = Vec::new();
                assert(Search::view_list(none@) =~= Seq::<SpecSearch>::empty());
                (j, none)
            },
        }
    } else {
        let none: Vec<Search> = Vec::new();
        assert(Search::view_list(none@) =~= Seq::<SpecSearch>::empty());
        (j, none)
    }
}

fn or_at(input: &str, s: &Vec<char>, i: usize) -> (r: Option<(usize, Search)>)
    requires
        i <= s.len(),
        s@ == input@,
    ensures
        search_view(r) == spec_or(s@, i as int),
        advances(r, i, s@.len() as int),
    decreases s@.len() - i, 3int,
{
    match unary_at(input, s, i) {
        Some((j, v)) => {
            let (k, rest) = or_rest_at(input, s, j);
            let all = cons(v, rest);
            if all.len() >= 2 {
                Some((k, Search::Or(all)))
            } else {
                None
            }
        },
        None => None,
    }
}

fn unary_at(input: &str, s: &Vec<char>, i: usize) -> (r: Option<(usize, Search)>)
    requires
        i <= s.len(),
        s@ == input@,
    ensures
        search_view(r) == spec_unary(s@, i as int),
        advances(r, i, s@.len() as int),
    decreases s@.len() - i, 2int,
{
    let r = paren_at(input, s, i);
    if r.is_some() {
        return r;
    }
    let r = negate_at(input, s, i);
    if r.is_some() {
        return r;
    }
    test_at(input, s, i)
}

fn or_rest_at(input: &str, s: &Vec<char>, j: usize) -> (r: (usize, Vec<Search>))
    requires
        j <= s.len(),
        s@ == input@,
    ensures
        r.0 as int == spec_or_rest(s@, j as int).0,
        Search::view_list(r.1@) == spec_or_rest(s@, j as int).1,
        j <= r.0 <= s.len(),
    decreases s@.len() - j, 0int,
{
    if has_char_at(s, j, '|') {
        match unary_at(input, s, j + 1) {
            Some((m, v)) => {
                let (e, rest) = or_rest_at(input, s, m);
                (e, cons(v, rest))
            },
            None => {
                let none: Vec<Search> = Vec::new();
                assert(Search::view_list(none@) =~= Seq::<SpecSearch>::empty());
                (j, none)
            },
        }
    } else {
        let none: Vec<Search> = Vec::new();
        assert(Search::view_list(none@) =~= Seq::<SpecSearch>::empty());
        (j, none)
    }
}

fn paren_at(input: &str, s: &Vec<char>, i: usize) -> (r: Option<(usize, Search)>)
    requires
        i <= s.len(),
        s@ == input@,
    ensures
        search_view(r) == spec_paren(s@, i as int),
        advances(r, i, s@.len() as int),
    decreases s@.len() - i, 1int,
{
    if has_char_at(s, i, '(') {
        match search_at(input, s, i + 1) {
            Some((j, v)) => if has_char_at(s, j, ')') {
                Some((j + 1, v))
            } else {
                None
            },
            None => None,
        }
    } else {
        None
    }
}

fn negate_at(input: &str, s: &Vec<char>, i: usize) -> (r: Option<(usize, Search)>)
    requires
        i <= s.len(),
        s@ == input@,
    ensures
        search_view(r) == spec_negate(s@, i as int),
        advances(r, i, s@.len() as int),
    decreases s@.len() - i, 1int,
{
    if has_char_at(s, i, '!') {
        match unary_at(input, s, i + 1) {
            Some((j, v)) => Some((j, Search::Negate(Box::new(v)))),
            None => None,
        }
    } else {
        None
    }
}

} // verus!

verus! {

/// The text did not have the form that the parser reads.
#[derive(Debug, PartialEq, Eq, Clone, Copy)]
pub struct ParseError;

/// The model of a condition parser's outcome: what is left of the text, and the condition.
pub open spec fn condition_outcome(r: Result<(&str, Condition), ParseError>) -> Option<
    (Seq<char>, SpecCondition),
> {
    match r {
        Ok((rest, c)) => Some((rest@, c@)),
        Err(_) => None,
    }
}

/// The model of a search parser's outcome: what is left of the text, and the search.
pub open spec fn search_outcome(r: Result<(&str, Search), ParseError>) -> Option<
    (Seq<char>, SpecSearch),
> {
    match r {
        Ok((rest, v)) => Some((rest@, v@)),
        Err(_) => None,
    }
}

/// Reads the longest run of word characters at the start of `input` (possibly none).
pub fn parse_item(input: &str) -> (r: Result<(&str, &str), ParseError>)
    ensures
        r matches Ok((rest, item)) && item@ == input@.subrange(0, item_end(input@, 0)) && rest@
            == input@.subrange(item_end(input@, 0), input@.len() as int),
{
    let s = chars_of(input);
    let a = item_end_at(&s, 0);
    Ok((input.substring_char(a, s.len()), input.substring_char(0, a)))
}

/// Reads `word:word` at the start of `input`, giving the two words.
pub fn parse_whole(input: &str) -> (r: Result<(&str, (&str, &str)), ParseError>)
    ensures
        match spec_whole(input@, 0) {
            Some((a, b, c)) => r matches Ok((rest, (lhs, rhs))) && lhs@ == input@.subrange(0, a)
                && rhs@ == input@.subrange(b, c) && rest@ == input@.subrange(
                c,
                input@.len() as int,
            ),
            None => r is Err,
        },
{
    let s = chars_of(input);
    match whole_at(&s, 0) {
        Some((a, b, c)) => Ok(
            (
                input.substring_char(c, s.len()),
                (input.substring_char(0, a), input.substring_char(b, c)),
            ),
        ),
        None => Err(ParseError),
    }
}

/// Reads `source:fan`, `source:commission` or `source:official` at the start of `input`.
pub fn parse_source(input: &str) -> (r: Result<(&str, Condition), ParseError>)
    ensures
        condition_outcome(r) == rest_and_value(input@, spec_source(input@, 0)),
{
    let s = chars_of(input);
    match source_at(&s, 0) {
        Some((j, c)) => Ok((input.substring_char(j, s.len()), c)),
        None => Err(ParseError),
    }
}

/// Reads `media:image` or `media:text` at the start of `input`.
pub fn parse_media(input: &str) -> (r: Result<(&str, Condition), ParseError>)
    ensures
        condition_outcome(r) == rest_and_value(input@, spec_media(input@, 0)),
{
    let s = chars_of(input);
    match media_at(&s, 0) {
        Some((j, c)) => Ok((input.substring_char(j, s.len()), c)),
        None => Err(ParseError),
    }
}

/// Reads `after:MM/DD/YYYY` or `before:MM/DD/YYYY` at the start of `input`.
pub fn parse_added(input: &str) -> (r: Result<(&str, Condition), ParseError>)
    ensures
        condition_outcome(r) == rest_and_value(input@, spec_added(input@, 0)),
{
    let s = chars_of(input);
    match added_at(input, &s, 0) {
        Some((j, c)) => Ok((input.substring_char(j, s.len()), c)),
        None => Err(ParseError),
    }
}

/// Reads `total`, `base` or `tip`, then `>=` or `<=`, then an integer at the start of `input`.
pub fn parse_price(input: &str) -> (r: Result<(&str, Condition), ParseError>)
    ensures
        condition_outcome(r) == rest_and_value(input@, spec_price(input@, 0)),
{
    let s = chars_of(input);
    match price_at(&s, 0) {
        Some((j, c)) => Ok((input.substring_char(j, s.len()), c)),
        None => Err(ParseError),
    }
}

/// Reads a tag name at the start of `input`.
pub fn parse_tag(input: &str) -> (r: Result<(&str, Condition), ParseError>)
    ensures
        condition_outcome(r) == rest_and_value(input@, spec_tag(input@, 0)),
{
    let s = chars_of(input);
    match tag_at(input, &s, 0) {
        Some((j, c)) => Ok((input.substring_char(j, s.len()), c)),
        None => Err(ParseError),
    }
}

/// Reads `category:tag` or `:tag` at the start of `input`.
pub fn parse_tag_with_category(input: &str) -> (r: Result<(&str, Condition), ParseError>)
    ensures
        condition_outcome(r) == rest_and_value(input@, spec_tag_with_category(input@, 0)),
{
    let s = chars_of(input);
    match tag_with_category_at(input, &s, 0) {
        Some((j, c)) => Ok((input.substring_char(j, s.len()), c)),
        None => Err(ParseError),
    }
}

/// Reads any single condition at the start of `input`.
pub fn parse_condition(input: &str) -> (r: Result<(&str, Condition), ParseError>)
    ensures
        condition_outcome(r) == rest_and_value(input@, spec_condition(input@, 0)),
{
    let s = chars_of(input);
    match condition_at(input, &s, 0) {
        Some((j, c)) => Ok((input.substring_char(j, s.len()), c)),
        None => Err(ParseError),
    }
}

/// Reads a condition, as a search at the start of `input`.
pub fn parse_test(input: &str) -> (r: Result<(&str, Search), ParseError>)
    ensures
        search_outcome(r) == rest_and_value(input@, spec_test(input@, 0)),
{
    let s = chars_of(input);
    match test_at(input, &s, 0) {
        Some((j, v)) => Ok((input.substring_char(j, s.len()), v)),
        None => Err(ParseError),
    }
}

/// Reads `!` and the group, negation or condition after it at the start of `input`.
pub fn parse_negate(input: &str) -> (r: Result<(&str, Search), ParseError>)
    ensures
        search_outcome(r) == rest_and_value(input@, spec_negate(input@, 0)),
{
    let s = chars_of(input);
    match negate_at(input, &s, 0) {
        Some((j, v)) => Ok((input.substring_char(j, s.len()), v)),
        None => Err(ParseError),
    }
}

/// Reads a search in parentheses at the start of `input`.
pub fn parse_paren(input: &str) -> (r: Result<(&str, Search), ParseError>)
    ensures
        search_outcome(r) == rest_and_value(input@, spec_paren(input@, 0)),
{
    let s = chars_of(input);
    match paren_at(input, &s, 0) {
        Some((j, v)) => Ok((input.substring_char(j, s.len()), v)),
        None => Err(ParseError),
    }
}

/// Reads two or more operands separated by `|` at the start of `input`.
pub fn parse_or(input: &str) -> (r: Result<(&str, Search), ParseError>)
    ensures
        search_outcome(r) == rest_and_value(input@, spec_or(input@, 0)),
{
    let s = chars_of(input);
    match or_at(input, &s, 0) {
        Some((j, v)) => Ok((input.substring_char(j, s.len()), v)),
        None => Err(ParseError),
    }
}

/// Reads two or more operands separated by spaces or tabs at the start of `input`.
pub fn parse_and(input: &str) -> (r: Result<(&str, Search), ParseError>)
    ensures
        search_outcome(r) == rest_and_value(input@, spec_and(input@, 0)),
{
    let s = chars_of(input);
    match and_at(input, &s, 0) {
        Some((j, v)) => Ok((input.substring_char(j, s.len()), v)),
        None => Err(ParseError),
    }
}

/// Reads a whole search query at the start of `input`.
pub fn parse_search(input: &str) -> (r: Result<(&str, Search), ParseError>)
    ensures
        search_outcome(r) == rest_and_value(input@, spec_search(input@, 0)),
{
    let s = chars_of(input);
    match search_at(input, &s, 0) {
        Some((j, v)) => Ok((input.substring_char(j, s.len()), v)),
        None => Err(ParseError),
    }
}

} // verus!
