//! The first version of the database, its undoable piece edits, and the
//! upgrade to the current version.
use crate::command::{BasicCommand, Merge, applied, undone};
use crate::db::DbV2;
use crate::entities::{today, Blob, Category, Tag};
use crate::model::{is_calendar_date, Date, MediaType, SourceType};
use crate::table::{Table, TableId};
use std::collections::{BTreeMap, BTreeSet};
use vstd::prelude::*;
use vstd::std_specs::cmp::PartialEqSpec;
use vstd::string::StringExecFns;

verus! {

/// A piece as the first version of the database kept it.
#[derive(Debug, PartialEq, Eq, Clone)]
pub struct Piece {
    pub name: String,
    pub source_type: SourceType,
    pub media_type: MediaType,
    pub added: Date,
    pub base_price: Option<i64>,
    pub tip_price: Option<i64>,
}

pub type PieceId = TableId<Piece>;

impl Default for Piece {
    /// A commissioned image named `New Piece`, with no prices, added today.
    fn default() -> (p: Piece)
        ensures
            p.name@ == seq!['N', 'e', 'w', ' ', 'P', 'i', 'e', 'c', 'e'],
            p.source_type == SourceType::Commission,
            p.media_type == MediaType::Image,
            p.base_price is None,
            p.tip_price is None,
            is_calendar_date(p.added),
    {
        let name = "New Piece";
        proof {
            reveal_strlit("New Piece");
        }
        assert(name@ =~= seq!['N', 'e', 'w', ' ', 'P', 'i', 'e', 'c', 'e']);
        Piece {
            name: String::from_str(name),
            source_type: SourceType::Commission,
            media_type: MediaType::Image,
            added: today(),
            base_price: None,
            tip_price: None,
        }
    }
}

/// An undoable edit of one field of a piece.
pub enum PieceCommand {
    Name(BasicCommand<String>),
    SourceType(BasicCommand<SourceType>),
    MediaType(BasicCommand<MediaType>),
    Added(BasicCommand<Date>),
    BasePrice(BasicCommand<Option<i64>>),
    TipPrice(BasicCommand<Option<i64>>),
}

/// The edit remembers what it replaced.
pub open spec fn remembers(c: PieceCommand) -> bool {
    match c {
        PieceCommand::Name(c) => c.from is Some,
        PieceCommand::SourceType(c) => c.from is Some,
        PieceCommand::MediaType(c) => c.from is Some,
        PieceCommand::Added(c) => c.from is Some,
        PieceCommand::BasePrice(c) => c.from is Some,
        PieceCommand::TipPrice(c) => c.from is Some,
    }
}

/// Applying (`undo` false) or undoing (`undo` true) the edit `before` on the
/// piece `p` gives the edit `after` and the piece `q`: the edited field
/// changes as the field's own edit says, and every other field stays.
pub open spec fn piece_edited(
    before: PieceCommand,
    p: Piece,
    after: PieceCommand,
    q: Piece,
    undo: bool,
) -> bool {
    match (before, after) {
        (PieceCommand::Name(b), PieceCommand::Name(a)) => {
            &&& if undo {
                undone(b, p.name, a, q.name)
            } else {
                applied(b, p.name, a, q.name)
            }
            &&& q == Piece { name: q.name, ..p }
        },
        (PieceCommand::SourceType(b), PieceCommand::SourceType(a)) => {
            &&& if undo {
                undone(b, p.source_type, a, q.source_type)
            } else {
                applied(b, p.source_type, a, q.source_type)
            }
            &&& q == Piece { source_type: q.source_type, ..p }
        },
        (PieceCommand::MediaType(b), PieceCommand::MediaType(a)) => {
            &&& if undo {
                undone(b, p.media_type, a, q.media_type)
            } else {
                applied(b, p.media_type, a, q.media_type)
            }
            &&& q == Piece { media_type: q.media_type, ..p }
        },
        (PieceCommand::Added(b), PieceCommand::Added(a)) => {
            &&& if undo {
                undone(b, p.added, a, q.added)
            } else {
                applied(b, p.added, a, q.added)
            }
            &&& q == Piece { added: q.added, ..p }
        },
        (PieceCommand::BasePrice(b), PieceCommand::BasePrice(a)) => {
            &&& if undo {
                undone(b, p.base_price, a, q.base_price)
            } else {
                applied(b, p.base_price, a, q.base_price)
            }
            &&& q == Piece { base_price: q.base_price, ..p }
        },
        (PieceCommand::TipPrice(b), PieceCommand::TipPrice(a)) => {
            &&& if undo {
                undone(b, p.tip_price, a, q.tip_price)
            } else {
                applied(b, p.tip_price, a, q.tip_price)
            }
            &&& q == Piece { tip_price: q.tip_price, ..p }
        },
        _ => false,
    }
}

/// Merging the field edit `c` (wrapped as `wrapped`) into `b` gives `a`
/// and the outcome `m`, as [`merged`] says for the field's own edits.
pub open spec fn merged_as<T: PartialEq>(
    b: BasicCommand<T>,
    c: BasicCommand<T>,
    a: BasicCommand<T>,
    m: Merge<PieceCommand>,
    wrapped: PieceCommand,
) -> bool {
    let cancels = b.from matches Some(f) && f.eq_spec(&c.to);
    &&& T::obeys_eq_spec() ==> (m is Annul <==> cancels)
    &&& m is Annul ==> a == b && b.from is Some
    &&& m is No ==> m == Merge::No(wrapped) && c.from is Some && a == b
    &&& m is Yes ==> c.from is None && a.from == b.from && a.to == c.to
}

/// Merging `command` into `before` gives `after` and the outcome `m`: edits
/// of the name, the date added, the base price or the tip merge with an edit
/// of the same field; every other pair stays apart.
pub open spec fn piece_merged(
    before: PieceCommand,
    command: PieceCommand,
    after: PieceCommand,
    m: Merge<PieceCommand>,
) -> bool {
    match (before, command) {
        (PieceCommand::Name(b), PieceCommand::Name(c)) => after matches PieceCommand::Name(a)
            && merged_as(b, c, a, m, command),
        (PieceCommand::Added(b), PieceCommand::Added(c)) => after matches PieceCommand::Added(a)
            && merged_as(b, c, a, m, command),
        (PieceCommand::BasePrice(b), PieceCommand::BasePrice(c)) => after matches PieceCommand::BasePrice(a)
            && merged_as(b, c, a, m, command),
        (PieceCommand::TipPrice(b), PieceCommand::TipPrice(c)) => after matches PieceCommand::TipPrice(a)
            && merged_as(b, c, a, m, command),
        _ => m == Merge::No(command) && after == before,
    }
}

impl PieceCommand {
    /// Applies the edit to its field of the piece.
    pub fn apply(&mut self, target: &mut Piece) -> (r: Result<(), ()>)
        ensures
            r is Ok,
            piece_edited(*old(self), *old(target), *final(self), *final(target), false),
    {
        match self {
            PieceCommand::Name(command) => command.apply(&mut target.name),
            PieceCommand::SourceType(command) => command.apply(&mut target.source_type),
            PieceCommand::MediaType(command) => command.apply(&mut target.media_type),
            PieceCommand::Added(command) => command.apply(&mut target.added),
            PieceCommand::BasePrice(command) => command.apply(&mut target.base_price),
            PieceCommand::TipPrice(command) => command.apply(&mut target.tip_price),
        }
    }

    /// Undoes the edit on its field of the piece; the edit must have been applied.
    pub fn undo(&mut self, target: &mut Piece) -> (r: Result<(), ()>)
        requires
            remembers(*old(self)),
        ensures
            r is Ok,
            piece_edited(*old(self), *old(target), *final(self), *final(target), true),
    {
        match self {
            PieceCommand::Name(command) => command.undo(&mut target.name),
            PieceCommand::SourceType(command) => command.undo(&mut target.source_type),
            PieceCommand::MediaType(command) => command.undo(&mut target.media_type),
            PieceCommand::Added(command) => command.undo(&mut target.added),
            PieceCommand::BasePrice(command) => command.undo(&mut target.base_price),
            PieceCommand::TipPrice(command) => command.undo(&mut target.tip_price),
        }
    }

    /// Combines a new edit with this one when both edit the name, the date
    /// added, the base price or the tip (as `BasicCommand::merge` does);
    /// any other new edit stays apart (see [`piece_merged`]).
    pub fn merge(&mut self, command: PieceCommand) -> (m: Merge<PieceCommand>)
        ensures
            piece_merged(*old(self), command, *final(self), m),
    {
        match self {
            PieceCommand::Name(inner) => match command {
                PieceCommand::Name(new) => match inner.merge(new) {
                    Merge::No(c) => Merge::No(PieceCommand::Name(c)),
                    Merge::Yes => Merge::Yes,
                    Merge::Annul => Merge::Annul,
                },
                other => Merge::No(other),
            },
            PieceCommand::Added(inner) => match command {
                PieceCommand::Added(new) => match inner.merge(new) {
                    Merge::No(c) => Merge::No(PieceCommand::Added(c)),
                    Merge::Yes => Merge::Yes,
                    Merge::Annul => Merge::Annul,
                },
                other => Merge::No(other),
            },
            PieceCommand::BasePrice(inner) => match command {
                PieceCommand::BasePrice(new) => match inner.merge(new) {
                    Merge::No(c) => Merge::No(PieceCommand::BasePrice(c)),
                    Merge::Yes => Merge::Yes,
                    Merge::Annul => Merge::Annul,
                },
                other => Merge::No(other),
            },
            PieceCommand::TipPrice(inner) => match command {
                PieceCommand::TipPrice(new) => match inner.merge(new) {
                    Merge::No(c) => Merge::No(PieceCommand::TipPrice(c)),
                    Merge::Yes => Merge::Yes,
                    Merge::Annul => Merge::Annul,
                },
                other => Merge::No(other),
            },
            _ => Merge::No(command),
        }
    }
}


/// The first version of the database.
pub struct DbV1 {
    pub pieces: Table<Piece>,
    pub blobs: Table<Blob>,
    pub tags: Table<Tag>,
    pub categories: Table<Category>,
    pub media: BTreeSet<(usize, usize)>,
    pub piece_tags: BTreeSet<(usize, usize)>,
    pub tag_category: BTreeMap<usize, usize>,
}

/// A first-version piece in the current form: its name becomes the
/// description, and it has no external id; source and media type are dropped.
pub open spec fn upgraded(p: Piece) -> crate::entities::Piece {
    crate::entities::Piece {
        external_id: None,
        description: p.name,
        added: p.added,
        base_price: p.base_price,
        tip_price: p.tip_price,
    }
}

/// A first-version piece in the current form.
pub fn upgrade_piece(p: &Piece) -> (q: crate::entities::Piece)
    ensures
        q == upgraded(*p),
{
    crate::entities::Piece {
        external_id: None,
        description: p.name.clone(),
        added: p.added,
        base_price: p.base_price,
        tip_price: p.tip_price,
    }
}

impl DbV2 {
    /// The current form of a first-version database: every piece keeps its
    /// id and is upgraded; blobs, tags, categories and relations are kept.
    pub fn from_v1(value: DbV1) -> (db: DbV2)
        ensures
            db.pieces.rows().dom() == value.pieces.rows().dom(),
            forall|k: usize| #[trigger]
                db.pieces.rows().contains_key(k) ==> db.pieces.rows()[k] == upgraded(
                    value.pieces.rows()[k],
                ),
            db.blobs == value.blobs,
            db.tags == value.tags,
            db.categories == value.categories,
            db.media@ == value.media@,
            db.piece_tags@ == value.piece_tags@,
            db.tag_category@ == value.tag_category@,
    {
        let pieces = value.pieces.convert(upgrade_piece);
        DbV2 {
            pieces,
            blobs: value.blobs,
            tags: value.tags,
            categories: value.categories,
            media: value.media,
            piece_tags: value.piece_tags,
            tag_category: value.tag_category,
        }
    }
}

} // verus!
