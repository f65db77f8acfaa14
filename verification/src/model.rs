//! The abstract syntax of search queries, with its mathematical model.
use vstd::prelude::*;

verus! {

/// The kind of media a piece is.
#[derive(Debug, PartialEq, Eq, Clone, Copy, Structural)]
pub enum MediaType {
    Image,
    Text,
}

/// Who made a piece.
#[derive(Debug, PartialEq, Eq, Clone, Copy, Structural)]
pub enum SourceType {
    FanCreation,
    Official,
    Commission,
}

impl MediaType {
    /// Every media type, in the order the piece editor offers them.
    pub fn all() -> (v: Vec<MediaType>)
        ensures
            v@ == seq![MediaType::Image, MediaType::Text],
    {
        let v = vec![MediaType::Image, MediaType::Text];
        assert(v@ =~= seq![MediaType::Image, MediaType::Text]);
        v
    }

    /// The name shown for the media type.
    pub fn text(&self) -> (t: &'static str)
        ensures
            t@ == match *self {
                MediaType::Image => "Image"@,
                MediaType::Text => "Text"@,
            },
    {
        match self {
            MediaType::Image => "Image",
            MediaType::Text => "Text",
        }
    }
}

impl SourceType {
    /// Every source type, in the order the piece editor offers them.
    pub fn all() -> (v: Vec<SourceType>)
        ensures
            v@ == seq![SourceType::FanCreation, SourceType::Official, SourceType::Commission],
    {
        let v = vec![SourceType::FanCreation, SourceType::Official, SourceType::Commission];
        assert(v@ =~= seq![SourceType::FanCreation, SourceType::Official, SourceType::Commission]);
        v
    }

    /// The name shown for the source type.
    pub fn text(&self) -> (t: &'static str)
        ensures
            t@ == match *self {
                SourceType::FanCreation => "Fan Creation"@,
                SourceType::Official => "Official"@,
                SourceType::Commission => "Commission"@,
            },
    {
        match self {
            SourceType::FanCreation => "Fan Creation",
            SourceType::Official => "Official",
            SourceType::Commission => "Commission",
        }
    }
}

/// Direction of a date comparison.
#[derive(Debug, PartialEq, Eq, Clone, Copy, Structural)]
pub enum DateOp {
    Before,
    After,
}

/// Which price of a piece a price condition looks at.
#[derive(Debug, PartialEq, Eq, Clone, Copy, Structural)]
pub enum PriceType {
    Total,
    Base,
    Tip,
}

/// Direction of a price comparison.
#[derive(Debug, PartialEq, Eq, Clone, Copy, Structural)]
pub enum PriceOp {
    GreaterEqual,
    LesserEqual,
}

/// Whether `year` is a leap year of the proleptic Gregorian calendar.
pub open spec fn is_leap_year(year: int) -> bool {
    year % 4 == 0 && (year % 100 != 0 || year % 400 == 0)
}

/// The number of days of month `month` (1..=12) of `year`.
pub open spec fn days_in_month(year: int, month: int) -> int {
    if month == 2 {
        if is_leap_year(year) {
            29
        } else {
            28
        }
    } else if month == 4 || month == 6 || month == 9 || month == 11 {
        30
    } else {
        31
    }
}

/// Whether `d` is a day of the proleptic Gregorian calendar: a month from 1
/// to 12 and a day that the month has.
pub open spec fn is_calendar_date(d: Date) -> bool {
    &&& 1 <= d.month <= 12
    &&& 1 <= d.day <= days_in_month(d.year as int, d.month as int)
}

/// A calendar date (proleptic Gregorian), as year, month (1..=12) and day of month.
#[derive(Debug, PartialEq, Eq, Clone, Copy, Structural)]
pub struct Date {
    pub year: i32,
    pub month: u32,
    pub day: u32,
}

impl Date {
    /// The date with the given year, month and day.
    pub fn from_ymd(year: i32, month: u32, day: u32) -> (d: Date)
        ensures
            d == (Date { year, month, day }),
    {
        Date { year, month, day }
    }

    /// Chronological order: `self` is on or before `other`.
    pub open spec fn spec_le(self, other: Date) -> bool {
        ||| self.year < other.year
        ||| (self.year == other.year && self.month < other.month)
        ||| (self.year == other.year && self.month == other.month && self.day <= other.day)
    }

    /// Whether `self` is on or before `other`.
    pub fn le(&self, other: &Date) -> (b: bool)
        ensures
            b == self.spec_le(*other),
    {
        self.year < other.year || (self.year == other.year && self.month < other.month) || (
        self.year == other.year && self.month == other.month && self.day <= other.day)
    }
}

/// A single test that a piece may pass.
#[derive(Debug, PartialEq, Eq)]
pub enum Condition {
    Tag(String),
    TagWithCategory(Option<String>, String),
    DateAdded(DateOp, Date),
    Price(PriceType, PriceOp, i64),
    Media(MediaType),
    Source(SourceType),
}

/// A search query.
#[derive(Debug, PartialEq, Eq)]
pub enum Search {
    Or(Vec<Search>),
    And(Vec<Search>),
    Negate(Box<Search>),
    Test(Condition),
}

/// Mathematical model of a [`Condition`]: strings become sequences of characters.
pub enum SpecCondition {
    Tag(Seq<char>),
    TagWithCategory(Option<Seq<char>>, Seq<char>),
    DateAdded(DateOp, Date),
    Price(PriceType, PriceOp, i64),
    Media(MediaType),
    Source(SourceType),
}

/// Mathematical model of a [`Search`].
pub enum SpecSearch {
    Or(Seq<SpecSearch>),
    And(Seq<SpecSearch>),
    Negate(Box<SpecSearch>),
    Test(SpecCondition),
}

impl View for Condition {
    type V = SpecCondition;

    open spec fn view(&self) -> SpecCondition {
        match self {
            Condition::Tag(t) => SpecCondition::Tag(t@),
            Condition::TagWithCategory(c, t) => SpecCondition::TagWithCategory(
                match c {
                    Some(c) => Some(c@),
                    None => None,
                },
                t@,
            ),
            Condition::DateAdded(op, d) => SpecCondition::DateAdded(*op, *d),
            Condition::Price(ty, op, v) => SpecCondition::Price(*ty, *op, *v),
            Condition::Media(m) => SpecCondition::Media(*m),
            Condition::Source(s) => SpecCondition::Source(*s),
        }
    }
}

impl Search {
    /// The model of every element of a list of searches.
    pub open spec fn view_list(v: Seq<Search>) -> Seq<SpecSearch>
        decreases v,
    {
        Seq::new(
            v.len(),
            |k: int|
                if 0 <= k < v.len() {
                    v[k].view_search()
                } else {
                    arbitrary()
                },
        )
    }

    /// The model of a search.
    pub open spec fn view_search(&self) -> SpecSearch
        decreases self,
    {
        match self {
            Search::Or(v) => SpecSearch::Or(Search::view_list(v@)),
            Search::And(v) => SpecSearch::And(Search::view_list(v@)),
            Search::Negate(b) => SpecSearch::Negate(Box::new((**b).view_search())),
            Search::Test(c) => SpecSearch::Test(c@),
        }
    }
}

impl Clone for Condition {
    fn clone(&self) -> (r: Condition)
        ensures
            r == *self,
    {
        match self {
            Condition::Tag(t) => Condition::Tag(t.clone()),
            Condition::TagWithCategory(c, t) => Condition::TagWithCategory(
                match c {
                    Some(c) => Some(c.clone()),
                    None => None,
                },
                t.clone(),
            ),
            Condition::DateAdded(op, d) => Condition::DateAdded(*op, *d),
            Condition::Price(ty, op, v) => Condition::Price(*ty, *op, *v),
            Condition::Media(m) => Condition::Media(*m),
            Condition::Source(s) => Condition::Source(*s),
        }
    }
}

impl Search {
    /// A copy of a list of searches, element by element.
    pub fn duplicate_list(v: &Vec<Search>) -> (r: Vec<Search>)
        ensures
            Search::view_list(r@) == Search::view_list(v@),
        decreases v@,
    {
        let mut r: Vec<Search> = Vec::new();
        let mut k: usize = 0;
        while k < v.len()
            invariant
                k <= v.len(),
                r@.len() == k,
                forall|j: int| 0 <= j < k ==> #[trigger] r@[j].view_search() == v@[j].view_search(),
            decreases v.len() - k,
        {
            assert(decreases_to!(v@ => v@[k as int]));
            let e = v[k].duplicate();
            r.push(e);
            k = k + 1;
        }
        assert forall|j: int| 0 <= j < v@.len() implies Search::view_list(r@)[j] == Search::view_list(v@)[j] by {
            assert(r@[j].view_search() == v@[j].view_search());
        }
        assert(Search::view_list(r@) =~= Search::view_list(v@));
        r
    }

    /// A deep copy of a search.
    pub fn duplicate(&self) -> (r: Search)
        ensures
            r@ == self@,
        decreases self,
    {
        match self {
            Search::Or(v) => Search::Or(Search::duplicate_list(v)),
            Search::And(v) => Search::And(Search::duplicate_list(v)),
            Search::Negate(b) => Search::Negate(Box::new(b.duplicate())),
            Search::Test(c) => Search::Test(c.clone()),
        }
    }
}

impl Search {
    /// The model of a list is taken element by element, so it splits over concatenation.
    pub proof fn lemma_view_list_concat(a: Seq<Search>, b: Seq<Search>)
        ensures
            Search::view_list(a + b) == Search::view_list(a) + Search::view_list(b),
    {
        assert(Search::view_list(a + b) =~= Search::view_list(a) + Search::view_list(b));
    }

    /// The model of a one-element list.
    pub proof fn lemma_view_list_single(x: Search)
        ensures
            Search::view_list(seq![x]) == seq![x@],
    {
        assert(Search::view_list(seq![x]) =~= seq![x@]);
    }
}

impl Clone for Search {
    fn clone(&self) -> (r: Search)
        ensures
            r@ == self@,
    {
        self.duplicate()
    }
}

impl View for Search {
    type V = SpecSearch;

    open spec fn view(&self) -> SpecSearch {
        self.view_search()
    }
}

} // verus!
