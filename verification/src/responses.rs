//! What the screens do with the answers of their editors: the change asked
//! of the database, and where the user goes next.
use crate::backend::DbAction;
use crate::db::{AttachCategory, AttachTag, EditBlob, EditCategory, EditPiece, EditTag};
use crate::entities::{BlobId, CategoryId, PieceId, TagId};
use crate::views::{EditCategoryResponse, GuiState, GuiView, ItemViewResponse, TagView, back_from};
use vstd::prelude::*;

verus! {

/// What the piece editor reports.
pub enum EditPieceResponse {
    Edit(EditPiece),
    Delete,
    AttachTag(AttachTag),
    RemoveTag(AttachTag),
    OpenTag(TagId),
}

/// What the tag editor reports.
pub enum EditTagResponse {
    Nothing,
    Delete,
    Edit(EditTag),
    AttachCategory(AttachCategory),
}

/// What the blob editor reports.
pub enum EditBlobResponse {
    Nothing,
    Changed(EditBlob),
    Deleted(BlobId),
}

/// What a screen does after an editor answered: a change for the database,
/// whether to go back, and a screen to open.
pub struct ScreenEffect {
    pub action: Option<DbAction>,
    pub back: bool,
    pub open: Option<GuiView>,
}

/// The screen of a tag, for looking at it.
pub open spec fn tag_screen(tag: TagId) -> GuiView {
    GuiView::Tag(TagView { id: tag, edit: false })
}

/// Nothing to do.
pub open spec fn no_effect() -> ScreenEffect {
    ScreenEffect { action: None, back: false, open: None }
}

/// What the piece screen of piece `id` does with the piece editor's answer:
/// an edit, a new tag or a tag taken off goes to the database; a deletion
/// goes to the database and back; a tag asked for is opened.
pub open spec fn piece_effect(id: PieceId, response: EditPieceResponse) -> ScreenEffect {
    match response {
        EditPieceResponse::Edit(e) => ScreenEffect {
            action: Some(DbAction::EditPiece(e)),
            back: false,
            open: None,
        },
        EditPieceResponse::Delete => ScreenEffect {
            action: Some(DbAction::DeletePiece(id)),
            back: true,
            open: None,
        },
        EditPieceResponse::AttachTag(a) => ScreenEffect {
            action: Some(DbAction::AttachTag(a)),
            back: false,
            open: None,
        },
        EditPieceResponse::RemoveTag(a) => ScreenEffect {
            action: Some(DbAction::RemoveTag(a)),
            back: false,
            open: None,
        },
        EditPieceResponse::OpenTag(t) => ScreenEffect { action: None, back: false, open: Some(tag_screen(t)) },
    }
}

/// What the tag screen of tag `id` does with the tag editor's answer.
pub open spec fn tag_effect(id: TagId, response: EditTagResponse) -> ScreenEffect {
    match response {
        EditTagResponse::Nothing => no_effect(),
        EditTagResponse::Delete => ScreenEffect {
            action: Some(DbAction::DeleteTag(id)),
            back: true,
            open: None,
        },
        EditTagResponse::Edit(e) => ScreenEffect {
            action: Some(DbAction::EditTag(e)),
            back: false,
            open: None,
        },
        EditTagResponse::AttachCategory(a) => ScreenEffect {
            action: Some(DbAction::AttachCategory(a)),
            back: false,
            open: None,
        },
    }
}

/// What the category screen of category `id` does with the category
/// editor's answer.
pub open spec fn category_effect(id: CategoryId, response: EditCategoryResponse) -> ScreenEffect {
    match response {
        EditCategoryResponse::Nothing => no_effect(),
        EditCategoryResponse::Delete => ScreenEffect {
            action: Some(DbAction::DeleteCategory(id)),
            back: true,
            open: None,
        },
        EditCategoryResponse::Edit(e) => ScreenEffect {
            action: Some(DbAction::EditCategory(e)),
            back: false,
            open: None,
        },
    }
}

/// What the blob screen does with the blob editor's answer.
pub open spec fn blob_effect(response: EditBlobResponse) -> ScreenEffect {
    match response {
        EditBlobResponse::Nothing => no_effect(),
        EditBlobResponse::Changed(e) => ScreenEffect {
            action: Some(DbAction::EditBlob(e)),
            back: false,
            open: None,
        },
        EditBlobResponse::Deleted(b) => ScreenEffect {
            action: Some(DbAction::DeleteBlob(b)),
            back: true,
            open: None,
        },
    }
}

/// What a tag in a list does when used: opening it opens its screen; the
/// other answers do nothing yet.
pub open spec fn item_effect(tag: TagId, response: ItemViewResponse) -> ScreenEffect {
    match response {
        ItemViewResponse::Open => ScreenEffect { action: None, back: false, open: Some(tag_screen(tag)) },
        _ => no_effect(),
    }
}

/// What the piece screen does with the piece editor's answer.
pub fn piece_response(id: PieceId, response: EditPieceResponse) -> (e: ScreenEffect)
    ensures
        e == piece_effect(id, response),
{
    match response {
        EditPieceResponse::Edit(e) => ScreenEffect {
            action: Some(DbAction::EditPiece(e)),
            back: false,
            open: None,
        },
        EditPieceResponse::Delete => ScreenEffect {
            action: Some(DbAction::DeletePiece(id)),
            back: true,
            open: None,
        },
        EditPieceResponse::AttachTag(a) => ScreenEffect {
            action: Some(DbAction::AttachTag(a)),
            back: false,
            open: None,
        },
        EditPieceResponse::RemoveTag(a) => ScreenEffect {
            action: Some(DbAction::RemoveTag(a)),
            back: false,
            open: None,
        },
        EditPieceResponse::OpenTag(t) => ScreenEffect {
            action: None,
            back: false,
            open: Some(GuiView::Tag(TagView { id: t, edit: false })),
        },
    }
}

/// What the tag screen does with the tag editor's answer.
pub fn tag_response(id: TagId, response: EditTagResponse) -> (e: ScreenEffect)
    ensures
        e == tag_effect(id, response),
{
    match response {
        EditTagResponse::Nothing => ScreenEffect { action: None, back: false, open: None },
        EditTagResponse::Delete => ScreenEffect {
            action: Some(DbAction::DeleteTag(id)),
            back: true,
            open: None,
        },
        EditTagResponse::Edit(e) => ScreenEffect {
            action: Some(DbAction::EditTag(e)),
            back: false,
            open: None,
        },
        EditTagResponse::AttachCategory(a) => ScreenEffect {
            action: Some(DbAction::AttachCategory(a)),
            back: false,
            open: None,
        },
    }
}

/// What the category screen does with the category editor's answer.
pub fn category_response(id: CategoryId, response: EditCategoryResponse) -> (e: ScreenEffect)
    ensures
        e == category_effect(id, response),
{
    match response {
        EditCategoryResponse::Nothing => ScreenEffect { action: None, back: false, open: None },
        EditCategoryResponse::Delete => ScreenEffect {
            action: Some(DbAction::DeleteCategory(id)),
            back: true,
            open: None,
        },
        EditCategoryResponse::Edit(e) => ScreenEffect {
            action: Some(DbAction::EditCategory(e)),
            back: false,
            open: None,
        },
    }
}

/// What the blob screen does with the blob editor's answer.
pub fn blob_response(response: EditBlobResponse) -> (e: ScreenEffect)
    ensures
        e == blob_effect(response),
{
    match response {
        EditBlobResponse::Nothing => ScreenEffect { action: None, back: false, open: None },
        EditBlobResponse::Changed(e) => ScreenEffect {
            action: Some(DbAction::EditBlob(e)),
            back: false,
            open: None,
        },
        EditBlobResponse::Deleted(b) => ScreenEffect {
            action: Some(DbAction::DeleteBlob(b)),
            back: true,
            open: None,
        },
    }
}

/// What a tag in a list does when used.
pub fn item_response(tag: TagId, response: ItemViewResponse) -> (e: ScreenEffect)
    ensures
        e == item_effect(tag, response),
{
    match response {
        ItemViewResponse::Open => ScreenEffect {
            action: None,
            back: false,
            open: Some(GuiView::Tag(TagView { id: tag, edit: false })),
        },
        _ => ScreenEffect { action: None, back: false, open: None },
    }
}

impl GuiState {
    /// Follows an effect: goes back or opens the screen it asks for, and
    /// hands over the change it asks of the database.
    pub fn follow(&mut self, effect: ScreenEffect) -> (action: Option<DbAction>)
        ensures
            action == effect.action,
            final(self).views() == match effect.open {
                Some(v) => if effect.back {
                    back_from(old(self).views()).push(v)
                } else {
                    old(self).views().push(v)
                },
                None => if effect.back {
                    back_from(old(self).views())
                } else {
                    old(self).views()
                },
            },
    {
        let ScreenEffect { action, back, open } = effect;
        if back {
            self.go_back();
        }
        match open {
            Some(v) => self.goto(v),
            None => {},
        }
        action
    }
}

} // verus!
