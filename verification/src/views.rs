//! The screens of the application, what their widgets answer, and the stack of
//! screens the user walks through.
use crate::db::{DbV2, EditCategory};
use crate::entities::{BlobId, CategoryId, PieceId, TagId};
use vstd::prelude::*;

verus! {

/// The start screen.
pub struct Home;

/// Every piece, newest first, shown by its thumbnail.
pub struct Gallery;

/// The help text.
pub struct Help;

/// Every tag with its category.
pub struct TagList;

/// One category and the tags in it.
pub struct CategoryView {
    pub id: CategoryId,
    pub edit: bool,
}

/// One piece with its blobs and tags.
pub struct PieceView {
    pub id: PieceId,
    pub edit: bool,
}

/// One tag and the pieces that carry it.
pub struct TagView {
    pub id: TagId,
    pub edit: bool,
}

/// One blob, shown full size.
pub struct BlobView {
    pub id: BlobId,
    pub edit: bool,
}

/// The dialog that offers a newer release, if one was found.
pub struct CheckForUpdates {
    pub version: Option<String>,
}

/// The column the search results are ordered by.
#[derive(PartialEq, Eq, Clone, Copy, Structural)]
pub enum SortedBy {
    Name,
    Price,
    Added,
}

/// The search screen: the pieces found and how they are ordered.
pub struct Search {
    pub query_result: Vec<PieceId>,
    pub ascending: bool,
    pub sorted_by: SortedBy,
    pub show_single_tags: bool,
}

/// The text typed into the search bar, with its completions.
pub struct SearchState {
    pub text: String,
    pub auto_complete: Vec<String>,
    pub selected: Option<usize>,
}

/// What a clicked thumbnail reports.
#[derive(PartialEq, Eq, Clone, Copy, Structural)]
pub enum ThumbnailResponse {
    Nothing,
    Hovered,
    Clicked,
}

/// What a tag chip reports.
#[derive(PartialEq, Eq, Clone, Copy, Structural)]
pub enum TagResponse {
    Nothing,
    Info,
    Add,
    AddNegated,
    Remove,
    ReplaceSearch,
}

/// What a tag in a list reports.
#[derive(PartialEq, Eq, Clone, Copy, Structural)]
pub enum ItemViewResponse {
    Nothing,
    Add,
    AddNegated,
    Open,
}

/// What a tag shown on a piece reports.
#[derive(PartialEq, Eq, Clone, Copy, Structural)]
pub enum InPieceViewResponse {
    Nothing,
    Open,
    Remove,
}

/// What the category editor reports.
pub enum EditCategoryResponse {
    Nothing,
    Delete,
    Edit(EditCategory),
}

/// A screen on the stack.
pub enum GuiView {
    Home(Home),
    Gallery(Gallery),
    Help(Help),
    TagList(TagList),
    Category(CategoryView),
    Piece(PieceView),
    Tag(TagView),
    Blob(BlobView),
    Search(Search),
    CheckForUpdates(CheckForUpdates),
}

/// The title a screen shows in the breadcrumb bar, for the screens that have
/// one.
pub open spec fn label_of(v: GuiView) -> Option<Seq<char>> {
    match v {
        GuiView::Gallery(_) => Some("Gallery"@),
        GuiView::Category(_) => Some("Category"@),
        GuiView::Piece(_) => Some("Piece"@),
        GuiView::Tag(_) => Some("Tag"@),
        GuiView::Search(_) => Some("Search Screen"@),
        _ => None,
    }
}

/// Whether the screen shows a database row that is gone.
pub open spec fn shows_missing(v: GuiView, db: DbV2) -> bool {
    match v {
        GuiView::Category(c) => !db.categories.rows().contains_key(c.id.0),
        GuiView::Piece(p) => !db.pieces.rows().contains_key(p.id.0),
        GuiView::Tag(t) => !db.tags.rows().contains_key(t.id.0),
        GuiView::Blob(b) => !db.blobs.rows().contains_key(b.id.0),
        _ => false,
    }
}

impl GuiView {
    /// The title of the screen.
    pub fn label(&self) -> (r: Option<&'static str>)
        ensures
            match r {
                Some(s) => label_of(*self) == Some(s@),
                None => label_of(*self) is None,
            },
    {
        match self {
            GuiView::Gallery(_) => Some("Gallery"),
            GuiView::Category(_) => Some("Category"),
            GuiView::Piece(_) => Some("Piece"),
            GuiView::Tag(_) => Some("Tag"),
            GuiView::Search(_) => Some("Search Screen"),
            _ => None,
        }
    }

    /// Whether the screen shows a row that the database no longer has, in
    /// which case it has to be left.
    pub fn is_stale(&self, db: &DbV2) -> (b: bool)
        ensures
            b == shows_missing(*self, *db),
    {
        match self {
            GuiView::Category(c) => !db.categories.has(c.id),
            GuiView::Piece(p) => !db.pieces.has(p.id),
            GuiView::Tag(t) => !db.tags.has(t.id),
            GuiView::Blob(b) => !db.blobs.has(b.id),
            _ => false,
        }
    }
}

impl Default for Search {
    /// No results yet, ordered by name, ascending, single-use tags hidden.
    fn default() -> (s: Search)
        ensures
            s.query_result@ == Seq::<PieceId>::empty(),
            s.ascending,
            s.sorted_by == SortedBy::Name,
            !s.show_single_tags,
    {
        Search {
            query_result: Vec::new(),
            ascending: true,
            sorted_by: SortedBy::Name,
            show_single_tags: false,
        }
    }
}

impl Search {
    /// A click on the header of `column`: the column already in use flips its
    /// direction, another column takes over in ascending order.
    pub fn click_header(&mut self, column: SortedBy)
        ensures
            final(self).sorted_by == column,
            final(self).ascending == if old(self).sorted_by == column {
                !old(self).ascending
            } else {
                true
            },
            final(self).query_result@ == old(self).query_result@,
            final(self).show_single_tags == old(self).show_single_tags,
    {
        if self.sorted_by == column {
            self.ascending = !self.ascending;
        } else {
            self.sorted_by = column;
            self.ascending = true;
        }
    }

    /// Whether the rows, sorted by the key of the column, are shown last to
    /// first.  Dates are shown newest first when the order is ascending.
    pub fn shows_reversed(&self) -> (b: bool)
        ensures
            b == (!self.ascending != (self.sorted_by == SortedBy::Added)),
    {
        let by_date = match self.sorted_by {
            SortedBy::Added => true,
            _ => false,
        };
        !self.ascending != by_date
    }
}

impl Default for SearchState {
    /// An empty search bar.
    fn default() -> (s: SearchState)
        ensures
            s.text@ == Seq::<char>::empty(),
            s.auto_complete@ == Seq::<String>::empty(),
            s.selected is None,
    {
        SearchState { text: String::new(), auto_complete: Vec::new(), selected: None }
    }
}

/// The stack a "back" step leaves: the top screen goes, unless it is the only
/// one.
pub open spec fn back_from(views: Seq<GuiView>) -> Seq<GuiView> {
    if views.len() > 1 {
        views.drop_last()
    } else {
        views
    }
}

/// The switches and the search bar that every screen shares.
pub struct InnerGuiState {
    pub show_styles: bool,
    pub show_metrics: bool,
    pub search: SearchState,
}

impl Default for InnerGuiState {
    /// Both debug windows closed and an empty search bar.
    fn default() -> (s: InnerGuiState)
        ensures
            !s.show_styles,
            !s.show_metrics,
            s.search.text@ == Seq::<char>::empty(),
            s.search.auto_complete@ == Seq::<String>::empty(),
            s.search.selected is None,
    {
        InnerGuiState { show_styles: false, show_metrics: false, search: SearchState::default() }
    }
}

/// The screens the user went through, the last one on show.  The home screen
/// is always at the bottom, so there is always a screen to show.
pub struct GuiState {
    view_stack: Vec<GuiView>,
}

impl GuiState {
    /// The screens, bottom first.
    pub closed spec fn views(&self) -> Seq<GuiView> {
        self.view_stack@
    }

    #[verifier::type_invariant]
    closed spec fn home_at_bottom(&self) -> bool {
        &&& self.view_stack@.len() >= 1
        &&& self.view_stack@[0] is Home
    }

    /// The home screen alone.
    pub fn new() -> (s: GuiState)
        ensures
            s.views() == seq![GuiView::Home(Home)],
    {
        let s = GuiState { view_stack: vec![GuiView::Home(Home)] };
        assert(s.views() =~= seq![GuiView::Home(Home)]);
        s
    }

    /// Takes the stack out, leaving the home screen alone in its place.
    fn take_stack(&mut self) -> (stack: Vec<GuiView>)
        ensures
            stack@ == old(self).views(),
            stack@.len() >= 1,
            stack@[0] is Home,
            final(self).views() == seq![GuiView::Home(Home)],
    {
        proof {
            use_type_invariant(&*self);
        }
        let mut whole = GuiState::new();
        std::mem::swap(&mut whole, self);
        let GuiState { view_stack } = whole;
        view_stack
    }

    /// The screen on show.
    pub fn current(&self) -> (v: &GuiView)
        ensures
            self.views().len() >= 1,
            *v == self.views().last(),
    {
        proof {
            use_type_invariant(self);
        }
        let n = self.view_stack.len();
        &self.view_stack[n - 1]
    }

    /// The title of the screen on show.
    pub fn label(&self) -> (r: Option<&'static str>)
        ensures
            match r {
                Some(s) => label_of(self.views().last()) == Some(s@),
                None => label_of(self.views().last()) is None,
            },
    {
        self.current().label()
    }

    /// Goes back to the previous screen; the home screen stays.
    pub fn go_back(&mut self)
        ensures
            final(self).views() == back_from(old(self).views()),
            final(self).views().len() >= 1,
            final(self).views()[0] is Home,
    {
        let mut stack = self.take_stack();
        if stack.len() > 1 {
            stack.pop();
        }
        *self = GuiState { view_stack: stack };
    }

    /// Shows `view` on top of the current screen.
    pub fn goto(&mut self, view: GuiView)
        ensures
            final(self).views() == old(self).views().push(view),
            final(self).views()[0] is Home,
    {
        let mut stack = self.take_stack();
        stack.push(view);
        *self = GuiState { view_stack: stack };
    }

    /// Shows a piece that was just made, ready to be edited.
    pub fn show_new_piece(&mut self, id: PieceId)
        ensures
            final(self).views() == old(self).views().push(
                GuiView::Piece(PieceView { id, edit: true }),
            ),
    {
        self.goto(GuiView::Piece(PieceView { id, edit: true }));
    }

    /// Shows a tag that was just made, ready to be edited.
    pub fn show_new_tag(&mut self, id: TagId)
        ensures
            final(self).views() == old(self).views().push(GuiView::Tag(TagView { id, edit: true })),
    {
        self.goto(GuiView::Tag(TagView { id, edit: true }));
    }

    /// Shows a category that was just made, ready to be edited.
    pub fn show_new_category(&mut self, id: CategoryId)
        ensures
            final(self).views() == old(self).views().push(
                GuiView::Category(CategoryView { id, edit: true }),
            ),
    {
        self.goto(GuiView::Category(CategoryView { id, edit: true }));
    }

    /// After another database was made or opened: back to the start, with the
    /// gallery on show.
    pub fn restart(&mut self)
        ensures
            final(self).views() == seq![GuiView::Home(Home), GuiView::Gallery(Gallery)],
    {
        *self = GuiState::new();
        self.goto(GuiView::Gallery(Gallery));
        assert(self.views() =~= seq![GuiView::Home(Home), GuiView::Gallery(Gallery)]);
    }

    /// Leaves the screen on show if the row it shows is gone from `db`.
    pub fn leave_if_stale(&mut self, db: &DbV2) -> (left: bool)
        ensures
            left == shows_missing(old(self).views().last(), *db),
            final(self).views() == if left {
                back_from(old(self).views())
            } else {
                old(self).views()
            },
    {
        let stale = self.current().is_stale(db);
        if stale {
            self.go_back();
        }
        stale
    }
}

impl Default for GuiState {
    /// The home screen alone.
    fn default() -> (s: GuiState)
        ensures
            s.views() == seq![GuiView::Home(Home)],
    {
        GuiState::new()
    }
}

} // verus!
