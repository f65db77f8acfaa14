//! The rows of the database: pieces, blobs (stored files), tags and tag categories.
use crate::model::{is_calendar_date, Date};
use crate::table::TableId;
use vstd::prelude::*;
use vstd::string::StringExecFns;
use std::collections::hash_map::DefaultHasher;
use std::hash::{Hash, Hasher};

verus! {

/// The role of a stored file within its piece.
#[derive(Debug, PartialEq, Eq, Clone, Copy, Structural)]
pub enum BlobType {
    Canon,
    Variant,
    Raw,
    Draft,
}

impl BlobType {
    /// Every blob type, in the order the piece screen shows them.
    pub fn all() -> (v: Vec<BlobType>)
        ensures
            v@ == seq![BlobType::Canon, BlobType::Variant, BlobType::Raw, BlobType::Draft],
    {
        let v = vec![BlobType::Canon, BlobType::Variant, BlobType::Raw, BlobType::Draft];
        assert(v@ =~= seq![BlobType::Canon, BlobType::Variant, BlobType::Raw, BlobType::Draft]);
        v
    }

    /// The name shown for the blob type.
    pub fn text(&self) -> (t: &'static str)
        ensures
            t@ == match *self {
                BlobType::Canon => "Canon"@,
                BlobType::Variant => "Variant"@,
                BlobType::Raw => "Raw"@,
                BlobType::Draft => "Draft"@,
            },
    {
        match self {
            BlobType::Canon => "Canon",
            BlobType::Variant => "Variant",
            BlobType::Raw => "Raw",
            BlobType::Draft => "Draft",
        }
    }
}

/// A stored file.
#[derive(Debug, PartialEq, Eq, Clone)]
pub struct Blob {
    pub file_name: String,
    pub hash: u64,
    pub blob_type: BlobType,
    pub added: Date,
}

/// A tag that pieces can carry.
#[derive(Debug, PartialEq, Eq, Clone)]
pub struct Tag {
    pub name: String,
    pub description: String,
    pub added: Date,
    pub links: Vec<String>,
}

/// A category that tags can belong to.
#[derive(Debug, PartialEq, Eq, Clone)]
pub struct Category {
    pub name: String,
    pub color: [u8; 4],
    pub added: Date,
}

/// Another name for a tag category.
pub type TagCategory = Category;

/// A piece of art, with the files attached to it kept as blobs.
#[derive(Debug, PartialEq, Eq, Clone)]
pub struct Piece {
    pub external_id: Option<String>,
    pub description: String,
    pub added: Date,
    pub base_price: Option<i64>,
    pub tip_price: Option<i64>,
}

pub type PieceId = TableId<Piece>;

pub type BlobId = TableId<Blob>;

pub type TagId = TableId<Tag>;

pub type CategoryId = TableId<Category>;

pub type TagCategoryId = TableId<Category>;

/// Calls `chrono::Local::now().date_naive()`: today's date in the local time
/// zone.  Which day it is depends on the clock and the machine's time zone,
/// so only this is stated: it is a day of the proleptic Gregorian calendar,
/// as every `chrono::NaiveDate` is, with its month numbered from 1 to 12 and
/// its day of month from 1.
#[verifier::external_body]
pub(crate) fn today() -> (d: Date)
    ensures
        is_calendar_date(d),
{
    let today = chrono::Local::now().date_naive();
    Date {
        year: chrono::Datelike::year(&today),
        month: chrono::Datelike::month(&today),
        day: chrono::Datelike::day(&today),
    }
}

/// Calls `DefaultHasher::new()`, feeds it `content` with `Hash::hash` and
/// returns `Hasher::finish`.  Nothing is stated of the hash: std leaves the
/// algorithm unspecified and free to change between releases.
#[verifier::external_body]
fn content_hash(content: &Vec<u8>) -> (h: u64) {
    let mut hasher = DefaultHasher::new();
    content.hash(&mut hasher);
    hasher.finish()
}

/// The blob for a file named `file_name` with content `content`: its name,
/// the hash of its content, its role, and today as the day it was added.
pub fn blob_for_file(file_name: String, content: &Vec<u8>, blob_type: BlobType) -> (b: Blob)
    ensures
        b.file_name == file_name,
        b.blob_type == blob_type,
        is_calendar_date(b.added),
{
    Blob { file_name, hash: content_hash(content), blob_type, added: today() }
}

impl Default for Piece {
    /// A piece with no id, no description and no prices, added today.
    fn default() -> (p: Piece)
        ensures
            p.external_id is None,
            p.description@ == Seq::<char>::empty(),
            p.base_price is None,
            p.tip_price is None,
            is_calendar_date(p.added),
    {
        Piece {
            external_id: None,
            description: String::new(),
            added: today(),
            base_price: None,
            tip_price: None,
        }
    }
}

impl Default for Tag {
    /// A tag named `New Tag`, with no description and no links, added today.
    fn default() -> (t: Tag)
        ensures
            t.name@ == seq!['N', 'e', 'w', ' ', 'T', 'a', 'g'],
            t.description@ == Seq::<char>::empty(),
            t.links@ == Seq::<String>::empty(),
            is_calendar_date(t.added),
    {
        let name = "New Tag";
        proof {
            reveal_strlit("New Tag");
        }
        assert(name@ =~= seq!['N', 'e', 'w', ' ', 'T', 'a', 'g']);
        Tag { name: String::from_str(name), description: String::new(), added: today(), links: Vec::new() }
    }
}

impl Default for Category {
    /// A category named `New Tag Category`, with the all-zero color, added today.
    fn default() -> (c: Category)
        ensures
            c.name@ == seq![
                'N', 'e', 'w', ' ', 'T', 'a', 'g', ' ', 'C', 'a', 't', 'e', 'g', 'o', 'r', 'y'
            ],
            c.color@ == seq![0u8, 0u8, 0u8, 0u8],
            is_calendar_date(c.added),
    {
        let name = "New Tag Category";
        proof {
            reveal_strlit("New Tag Category");
        }
        assert(name@ =~= seq![
            'N', 'e', 'w', ' ', 'T', 'a', 'g', ' ', 'C', 'a', 't', 'e', 'g', 'o', 'r', 'y'
        ]);
        let c = Category { name: String::from_str(name), color: [0u8; 4], added: today() };
        assert(c.color@ =~= seq![0u8, 0u8, 0u8, 0u8]);
        c
    }
}

/// The character of a decimal digit.
pub open spec fn digit_char(d: nat) -> char {
    (0x30 + d) as char
}

/// The decimal notation of `n`, without leading zeros.
pub open spec fn decimal(n: nat) -> Seq<char>
    decreases n,
{
    if n < 10 {
        seq![digit_char(n)]
    } else {
        decimal(n / 10).push(digit_char(n % 10))
    }
}

/// The text of one decimal digit.
fn digit_text(d: usize) -> (t: &'static str)
    requires
        d < 10,
    ensures
        t@ == seq![digit_char(d as nat)],
{
    let t = match d {
        0 => "0",
        1 => "1",
        2 => "2",
        3 => "3",
        4 => "4",
        5 => "5",
        6 => "6",
        7 => "7",
        8 => "8",
        _ => "9",
    };
    proof {
        reveal_strlit("0");
        reveal_strlit("1");
        reveal_strlit("2");
        reveal_strlit("3");
        reveal_strlit("4");
        reveal_strlit("5");
        reveal_strlit("6");
        reveal_strlit("7");
        reveal_strlit("8");
        reveal_strlit("9");
    }
    assert(t@ =~= seq![digit_char(d as nat)]);
    t
}

/// The decimal notation of `n`.
pub fn decimal_text(n: u64) -> (t: String)
    ensures
        t@ == decimal(n as nat),
    decreases n,
{
    if n < 10 {
        let mut t = String::new();
        t.append(digit_text(n as usize));
        assert(t@ =~= decimal(n as nat));
        t
    } else {
        let mut t = decimal_text(n / 10);
        t.append(digit_text((n % 10) as usize));
        assert(t@ =~= decimal(n as nat));
        t
    }
}

/// The name a blob's file is stored under: `[ID] FILE_NAME`.
pub open spec fn storage_name_of(id: usize, file_name: Seq<char>) -> Seq<char> {
    seq!['['] + decimal(id as nat) + seq![']', ' '] + file_name
}

impl Blob {
    /// The name this blob's file is stored under, given the blob's id: `[ID] FILE_NAME`.
    pub fn storage_name(&self, id: BlobId) -> (name: String)
        ensures
            name@ == storage_name_of(id.0, self.file_name@),
    {
        let open = "[";
        let close = "] ";
        proof {
            reveal_strlit("[");
            reveal_strlit("] ");
        }
        let mut name = String::from_str(open);
        let number = decimal_text(id.0 as u64);
        name.append(number.as_str());
        name.append(close);
        name.append(self.file_name.as_str());
        assert(name@ =~= storage_name_of(id.0, self.file_name@));
        name
    }
}

} // verus!
