//! The price fields of the piece editor: how a price is shown, and what the
//! text typed in gives.
use crate::entities::{decimal, decimal_text};
use crate::grammar::{all_digits, digits_value, is_ascii_digit};
use crate::parse::{capped_value, chars_of, is_ascii_digit_exec};
use vstd::prelude::*;

verus! {

/// A whole number in decimal notation, with a `-` in front when negative.
pub open spec fn signed_decimal(v: int) -> Seq<char> {
    if v < 0 {
        seq!['-'] + decimal((-v) as nat)
    } else {
        decimal(v as nat)
    }
}

/// The text a price field shows: the price, or nothing.
pub open spec fn price_text_of(price: Option<i64>) -> Seq<char> {
    match price {
        Some(v) => signed_decimal(v as int),
        None => Seq::empty(),
    }
}

/// The text a price field shows: the price, or nothing.
pub fn price_text(price: Option<i64>) -> (t: String)
    ensures
        t@ == price_text_of(price),
{
    match price {
        None => String::new(),
        Some(v) => {
            if v < 0 {
                let magnitude = (0i128 - (v as i128)) as u64;
                let mut t = String::from_str("-");
                let digits = decimal_text(magnitude);
                t.append(digits.as_str());
                proof {
                    reveal_strlit("-");
                }
                assert(t@ =~= signed_decimal(v as int));
                t
            } else {
                decimal_text(v as u64)
            }
        },
    }
}

/// Whether `u` is decimal digits, a `.` at index `p`, then decimal digits.
pub open spec fn splits_at_point(u: Seq<char>, p: int) -> bool {
    &&& 0 <= p < u.len()
    &&& u[p] == '.'
    &&& all_digits(u.take(p))
    &&& all_digits(u.skip(p + 1))
}

/// The whole number nearest to the unsigned decimal `u` (digits, or digits
/// around one `.`, with at least one digit), a half rounding up; `None` when
/// `u` is not such a decimal.
pub open spec fn rounded_magnitude(u: Seq<char>) -> Option<int> {
    if u.len() > 0 && all_digits(u) {
        Some(digits_value(u))
    } else if u.len() > 1 && exists|p: int| #[trigger] splits_at_point(u, p) {
        let p = choose|p: int| #[trigger] splits_at_point(u, p);
        let fraction = u.skip(p + 1);
        let up = fraction.len() > 0 && fraction[0] as u32 >= 0x35;
        Some(digits_value(u.take(p)) + if up { 1int } else { 0int })
    } else {
        None
    }
}

/// A price as typed: an optional `+` or `-`, then a decimal with an optional
/// fraction, rounded to the nearest whole unit (halves away from zero); `None`
/// when the text is no such number or the result does not fit in `i64`.
pub open spec fn spec_parse_price(t: Seq<char>) -> Option<i64> {
    let signed = t.len() > 0 && (t[0] == '+' || t[0] == '-');
    let negative = t.len() > 0 && t[0] == '-';
    let u = if signed {
        t.drop_first()
    } else {
        t
    };
    signed_price(negative, rounded_magnitude(u))
}

/// The magnitude `m`, negated when `negative`, if it fits in `i64`.
pub open spec fn signed_price(negative: bool, m: Option<int>) -> Option<i64> {
    match m {
        Some(m) => {
            let v = if negative {
                -m
            } else {
                m
            };
            if i64::MIN <= v && v <= i64::MAX {
                Some(v as i64)
            } else {
                None
            }
        },
        None => None,
    }
}

/// A decimal splits at one point at most.
pub proof fn lemma_point_unique(u: Seq<char>, p: int, q: int)
    requires
        splits_at_point(u, p),
        splits_at_point(u, q),
    ensures
        p == q,
{
    if p < q {
        assert(u.skip(p + 1)[q - p - 1] == u[q]);
    } else if q < p {
        assert(u.skip(q + 1)[p - q - 1] == u[p]);
    }
}

/// The price that `s` spells, rounded to the nearest whole unit.
fn rounded_price(s: &Vec<char>) -> (r: Option<i64>)
    ensures
        r == spec_parse_price(s@),
{
    let n = s.len();
    let ghost t = s@;
    let mut k: usize = 0;
    let mut negative = false;
    if n > 0 && (s[0] == '+' || s[0] == '-') {
        negative = s[0] == '-';
        k = 1;
    }
    let start = k;
    let ghost u = s@.subrange(start as int, n as int);
    assert(u =~= if start == 1 { t.drop_first() } else { t });
    assert(spec_parse_price(s@) == signed_price(negative, rounded_magnitude(u)));
    let mut acc: u128 = 0;
    assert(s@.subrange(start as int, start as int) =~= Seq::<char>::empty());
    while k < n && is_ascii_digit_exec(s[k])
        invariant
            start <= k <= n == s.len(),
            u == s@.subrange(start as int, n as int),
            spec_parse_price(s@) == signed_price(negative, rounded_magnitude(u)),
            acc == capped_value(s@, start as int, k as int),
            forall|j: int| start <= j < k ==> is_ascii_digit(#[trigger] s@[j]),
        decreases n - k,
    {
        let c = s[k];
        let digit = (c as u32 - 0x30) as u128;
        let ghost prev = digits_value(s@.subrange(start as int, k as int));
        assert(s@.subrange(start as int, k + 1).drop_last() =~= s@.subrange(start as int, k as int));
        assert(digits_value(s@.subrange(start as int, k + 1)) == prev * 10 + digit);
        if acc >= 0x8000_0000_0000_0001 {
            assert(prev * 10 + digit >= 0x8000_0000_0000_0001) by (nonlinear_arith)
                requires
                    prev >= 0x8000_0000_0000_0001,
                    digit >= 0,
            ;
        } else {
            let next = acc * 10 + digit;
            if next >= 0x8000_0000_0000_0001 {
                acc = 0x8000_0000_0000_0001;
            } else {
                acc = next;
            }
        }
        k = k + 1;
    }
    let p = k;
    let ghost whole = s@.subrange(start as int, p as int);
    assert(all_digits(whole)) by {
        assert forall|j: int| 0 <= j < whole.len() implies is_ascii_digit(#[trigger] whole[j]) by {
            assert(whole[j] == s@[start + j]);
        }
    }
    assert(u.take(p - start) =~= whole);
    let mut up = false;
    if p < n {
        if s[p] != '.' {
            assert(!all_digits(u)) by {
                assert(u[p - start] == s@[p as int]);
            }
            assert forall|q: int| !splits_at_point(u, q) by {
                if splits_at_point(u, q) {
                    if q < p - start {
                        assert(u.take(p - start)[q] == u[q]);
                    } else if q > p - start {
                        assert(u.take(q)[p - start] == u[p - start]);
                    }
                }
            }
            return None;
        }
        let mut m = p + 1;
        while m < n
            invariant
                start <= p < m <= n == s.len(),
                s@[p as int] == '.',
                u == s@.subrange(start as int, n as int),
                spec_parse_price(s@) == signed_price(negative, rounded_magnitude(u)),
                whole == s@.subrange(start as int, p as int),
                all_digits(whole),
                u.take(p - start) =~= whole,
                forall|j: int| p < j < m ==> is_ascii_digit(#[trigger] s@[j]),
            decreases n - m,
        {
            if !is_ascii_digit_exec(s[m]) {
                assert(!all_digits(u)) by {
                    assert(u[p - start] == s@[p as int]);
                }
                assert forall|q: int| !splits_at_point(u, q) by {
                    if splits_at_point(u, q) {
                        if q < p - start {
                            assert(u.take(p - start)[q] == u[q]);
                        } else if q > p - start {
                            assert(u.take(q)[p - start] == u[p - start]);
                        } else {
                            assert(u.skip(q + 1)[m - p - 1] == s@[m as int]);
                        }
                    }
                }
                return None;
            }
            m = m + 1;
        }
        let ghost q = (p - start) as int;
        assert(u.skip(q + 1) =~= s@.subrange(p + 1, n as int));
        assert(splits_at_point(u, q));
        assert(!all_digits(u)) by {
            assert(u[q] == '.');
        }
        if p == start && p + 1 == n {
            return None;
        }
        proof {
            let c = choose|c: int| #[trigger] splits_at_point(u, c);
            lemma_point_unique(u, c, q);
        }
        up = p + 1 < n && s[p + 1] as u32 >= 0x35;
    } else {
        assert(u =~= whole);
        if p == start {
            return None;
        }
    }
    let magnitude: u128 = if up { acc + 1 } else { acc };
    if negative {
        if magnitude <= 0x8000_0000_0000_0000 {
            Some((-(magnitude as i128)) as i64)
        } else {
            None
        }
    } else {
        if magnitude <= 0x7fff_ffff_ffff_ffff {
            Some(magnitude as i64)
        } else {
            None
        }
    }
}

/// The base price typed in, rounded to the nearest whole unit; no price when
/// the text is not a number.
pub fn entered_base_price(text: &str) -> (price: Option<i64>)
    ensures
        price == spec_parse_price(text@),
{
    let s = chars_of(text);
    rounded_price(&s)
}

/// The tip typed in: no tip for an empty text, the number typed rounded to
/// the nearest whole unit, or the tip as it was when the text is not a number.
pub fn entered_tip_price(current: Option<i64>, text: &str) -> (price: Option<i64>)
    ensures
        price == if text@.len() == 0 {
            None
        } else {
            match spec_parse_price(text@) {
                Some(v) => Some(v),
                None => current,
            }
        },
{
    if text.is_empty() {
        None
    } else {
        match entered_base_price(text) {
            Some(v) => Some(v),
            None => current,
        }
    }
}

} // verus!
