use art_organize::editing::{entered_base_price, entered_tip_price, price_text};
use art_organize::sorting::{stable_order, stable_text_order, text_less};
use art_organize::listing::{tag_pictures, tag_list, addable_tags, piece_tags_in, blobs_of_type, category_tags, gallery, gallery_tags, newest_first};
use art_organize::images::ImageCache;
use art_organize::responses::{
    blob_response, category_response, item_response, piece_response, tag_response, EditBlobResponse,
    EditPieceResponse, EditTagResponse,
};
use art_organize::views::{EditCategoryResponse, ItemViewResponse};
use art_organize::summary::tag_tally;
use art_organize::backend::{
    can_perform_now,
    data_file, is_stored_name, same_path, trash_candidates, DbAction, DbBackend, DbOutcome,
    DirEntry, FsPath,
};
use art_organize::command::{BasicCommand, Merge};
use art_organize::db::{Attach, DbV2, Edit};
use art_organize::entities::{blob_for_file, decimal_text, Blob, BlobType, Category, Piece, Tag};
use art_organize::first_time::FirstTime;
use art_organize::frontend::{save_status, Frontend, ViewResponse};
use art_organize::model::{Date, Search};
use art_organize::parse::{is_white_space_char, parse_added, parse_and, parse_i64, parse_search};
use art_organize::settings::{config_file_in, context_command, get_file, project_names, Config};
use art_organize::model::{MediaType, SourceType};
use art_organize::summary::summarize;
use art_organize::table::{Table, TableId};
use art_organize::v1::{DbV1, PieceCommand};
use art_organize::views::{
    Gallery, GuiState, GuiView, Help, PieceView, Search as SearchView, SortedBy, TagView,
};

fn path(parts: &[&str]) -> FsPath {
    FsPath {
        parts: parts.iter().map(|p| p.to_string()).collect(),
    }
}

fn names(p: &FsPath) -> Vec<&str> {
    p.parts.iter().map(|s| s.as_str()).collect()
}

fn piece(description: &str, added: Date, base: Option<i64>, tip: Option<i64>) -> Piece {
    Piece {
        external_id: None,
        description: description.to_string(),
        added,
        base_price: base,
        tip_price: tip,
    }
}

fn tag(name: &str) -> Tag {
    Tag {
        name: name.to_string(),
        description: String::new(),
        added: Date::from_ymd(2020, 1, 1),
        links: Vec::new(),
    }
}

fn blob(file_name: &str, blob_type: BlobType) -> Blob {
    Blob {
        file_name: file_name.to_string(),
        hash: 7,
        blob_type,
        added: Date::from_ymd(2020, 1, 1),
    }
}

fn ids<T>(v: &[TableId<T>]) -> Vec<usize> {
    v.iter().map(|id| id.0).collect()
}

fn run(db: &DbV2, query: &str) -> Vec<usize> {
    let (rest, search) = parse_search(query).unwrap();
    assert_eq!(rest, "");
    ids(&search.execute(db))
}

/// Pieces 0, 1, 2; tags "cat" (0) and "dog" (1); piece 0 has both, piece 1 only cat.
fn small_db() -> DbV2 {
    let mut db = DbV2::default();
    let p0 = db.create_piece(piece("first", Date::from_ymd(2011, 10, 25), Some(10), Some(5)));
    let p1 = db.create_piece(piece("second", Date::from_ymd(2012, 1, 1), Some(20), None));
    let _p2 = db.create_piece(piece("third", Date::from_ymd(2010, 5, 5), None, None));
    let cat = db.create_tag(tag("cat"));
    let dog = db.create_tag(tag("dog"));
    db.attach_tag(Attach { src: p0, dest: cat });
    db.attach_tag(Attach { src: p0, dest: dog });
    db.attach_tag(Attach { src: p1, dest: cat });
    db
}

#[test]
fn table_reuses_the_last_freed_id() {
    let mut t: Table<u32> = Table::new();
    let a = t.insert(1);
    let b = t.insert(2);
    let c = t.insert(3);
    assert_eq!((a.0, b.0, c.0), (0, 1, 2));
    assert_eq!(t.remove(a), 1);
    assert_eq!(t.remove(c), 3);
    assert_eq!(t.insert(4).0, 2);
    assert_eq!(t.insert(5).0, 0);
    assert_eq!(t.insert(6).0, 3);
    assert_eq!(t.get(TableId::new(1)), Some(&2));
}

#[test]
fn table_remove_after_insert_restores_rows() {
    let mut t: Table<&str> = Table::new();
    t.insert("x");
    t.insert("y");
    let before: Vec<(usize, &str)> = t.iter().iter().map(|(id, v)| (id.0, **v)).collect();
    let id = t.insert("z");
    assert_eq!(t.get(id), Some(&"z"));
    t.remove(id);
    let after: Vec<(usize, &str)> = t.iter().iter().map(|(id, v)| (id.0, **v)).collect();
    assert_eq!(before, after);
    assert!(!t.has(id));
}

#[test]
fn table_keys_are_in_order() {
    let mut t: Table<char> = Table::new();
    let a = t.insert('a');
    t.insert('b');
    t.insert('c');
    t.remove(a);
    assert_eq!(ids(&t.keys()), vec![1, 2]);
}

#[test]
fn db_relations_follow_attach_and_remove() {
    let mut db = small_db();
    let p0 = TableId::new(0);
    let cat = TableId::new(0);
    let dog = TableId::new(1);
    assert_eq!(ids(&db.tags_for_piece(p0)), vec![0, 1]);
    assert_eq!(ids(&db.pieces_for_tag(cat)), vec![0, 1]);
    assert!(db.remove_tag(Attach { src: p0, dest: dog }));
    assert!(!db.remove_tag(Attach { src: p0, dest: dog }));
    assert_eq!(ids(&db.tags_for_piece(p0)), vec![0]);
    assert!(db.attach_tag(Attach { src: p0, dest: dog }));
    assert!(!db.attach_tag(Attach { src: p0, dest: dog }));
    assert_eq!(ids(&db.tags_for_piece(p0)), vec![0, 1]);
}

#[test]
fn deleting_a_piece_drops_its_relations() {
    let mut db = small_db();
    let p0 = TableId::new(0);
    let b = db.create_blob(blob("a.png", BlobType::Canon));
    db.attach_blob(Attach { src: p0, dest: b });
    assert!(db.delete(p0));
    assert!(!db.delete(p0));
    assert_eq!(ids(&db.pieces_for_tag(TableId::new(1))), Vec::<usize>::new());
    assert_eq!(ids(&db.pieces_for_tag(TableId::new(0))), vec![1]);
    assert_eq!(ids(&db.pieces_for_blob(b)), Vec::<usize>::new());
    assert!(!db.exists_id(p0));
    assert!(db.exists_id(b));
}

#[test]
fn deleting_a_category_releases_its_tags() {
    let mut db = small_db();
    let c = db.create_category(Category {
        name: "animals".to_string(),
        color: [1, 2, 3, 4],
        added: Date::from_ymd(2020, 1, 1),
    });
    assert!(db.attach_category(Attach { src: TableId::new(0), dest: Some(c) }));
    assert_eq!(db.category_for_tag(TableId::new(0)).map(|c| c.0), Some(c.0));
    assert_eq!(ids(&db.tags_for_category(c)), vec![0]);
    assert!(db.delete(c));
    assert_eq!(db.category_for_tag(TableId::new(0)), None);
    assert!(!db.attach_category(Attach { src: TableId::new(0), dest: None }));
}

#[test]
fn editing_a_row_replaces_it() {
    let mut db = small_db();
    let p1 = TableId::new(1);
    assert!(db.edit(Edit { id: p1, data: piece("renamed", Date::from_ymd(2012, 1, 1), None, None) }));
    assert_eq!(db.pieces.get(p1).unwrap().description, "renamed");
    assert!(!db.edit(Edit { id: TableId::new(9), data: piece("x", Date::from_ymd(2012, 1, 1), None, None) }));
}

#[test]
fn primary_blob_prefers_canon() {
    let mut db = small_db();
    let p0 = TableId::new(0);
    let raw = db.create_blob(blob("raw.png", BlobType::Raw));
    let canon = db.create_blob(blob("canon.png", BlobType::Canon));
    db.attach_blob(Attach { src: p0, dest: raw });
    assert_eq!(db.primary_blob_for_piece(p0), None);
    db.attach_blob(Attach { src: p0, dest: canon });
    assert_eq!(db.primary_blob_for_piece(p0).map(|b| b.0), Some(canon.0));
}

#[test]
fn search_finds_pieces_by_tag() {
    let db = small_db();
    assert_eq!(run(&db, "cat"), vec![0, 1]);
    assert_eq!(run(&db, "dog"), vec![0]);
    assert_eq!(run(&db, "cat dog"), vec![0]);
    assert_eq!(run(&db, "dog|cat"), vec![0, 1]);
    assert_eq!(run(&db, "!cat"), vec![2]);
}

#[test]
fn search_and_is_what_every_operand_finds() {
    let db = small_db();
    let both = run(&db, "cat dog");
    let cat = run(&db, "cat");
    let dog = run(&db, "dog");
    let common: Vec<usize> = cat.iter().copied().filter(|p| dog.contains(p)).collect();
    assert_eq!(both, common);
}

#[test]
fn search_or_is_what_some_operand_finds() {
    let db = small_db();
    let either = run(&db, "dog|(cat !dog)");
    assert_eq!(either, vec![0, 1]);
}

#[test]
fn search_negation_covers_every_piece() {
    let db = small_db();
    let mut all = run(&db, "dog");
    all.extend(run(&db, "!dog"));
    all.sort();
    assert_eq!(all, vec![0, 1, 2]);
    assert_eq!(run(&db, "!!dog"), run(&db, "dog"));
}

#[test]
fn search_unknown_tag_has_no_verdict() {
    let db = small_db();
    assert_eq!(run(&db, "bird"), vec![0, 1, 2]);
    assert_eq!(run(&db, "!bird"), vec![0, 1, 2]);
}

#[test]
fn search_by_date() {
    let db = small_db();
    assert_eq!(run(&db, "after:01/01/2011"), vec![0, 1]);
    assert_eq!(run(&db, "before:01/01/2012"), vec![0, 1, 2]);
    assert_eq!(run(&db, "before:12/31/2011"), vec![0, 2]);
    assert_eq!(run(&db, "after:01/01/2012"), vec![1]);
    assert_eq!(run(&db, "before:12/31/2011 after:01/01/2011"), vec![0]);
}

#[test]
fn search_evaluates_each_piece() {
    let db = small_db();
    let (_, search) = parse_search("cat").unwrap();
    let p2 = TableId::new(2);
    let row = db.pieces.get(p2).unwrap();
    assert_eq!(search.evaluate_internal(&(p2, row), &db), Some(false));
    let (_, search) = parse_search("cat:x").unwrap();
    assert_eq!(search.evaluate_internal(&(p2, row), &db), None);
}

#[test]
fn verdicts_of_connectives() {
    let db = small_db();
    let p2 = TableId::new(2);
    let row = db.pieces.get(p2).unwrap();
    let value = (p2, row);
    let cat = || parse_search("cat").unwrap().1;
    let unknown = || parse_search("cat:x").unwrap().1;
    let not = |s: Search| Search::Negate(Box::new(s));
    assert_eq!(cat().evaluate_internal(&value, &db), Some(false));
    assert_eq!(not(cat()).evaluate_internal(&value, &db), Some(true));
    assert_eq!(not(not(cat())).evaluate_internal(&value, &db), Some(false));
    assert_eq!(not(unknown()).evaluate_internal(&value, &db), None);
    assert_eq!(Search::And(vec![unknown(), not(cat())]).evaluate_internal(&value, &db), Some(true));
    assert_eq!(Search::And(vec![unknown(), cat()]).evaluate_internal(&value, &db), Some(false));
    assert_eq!(Search::Or(vec![unknown(), cat()]).evaluate_internal(&value, &db), Some(true));
    assert_eq!(Search::Or(vec![cat(), cat()]).evaluate_internal(&value, &db), Some(false));
}

#[test]
fn conjunction_needs_two_operands() {
    assert!(parse_and("base>=20").is_err());
    let (rest, v) = parse_and("base>=20 tip<=5)x").unwrap();
    assert_eq!(rest, ")x");
    match v {
        Search::And(cs) => assert_eq!(cs.len(), 2),
        _ => panic!("not a conjunction"),
    }
}

#[test]
fn parse_leaves_the_unread_end() {
    let (rest, _) = parse_search("a b)c").unwrap();
    assert_eq!(rest, ")c");
    assert!("a b)c".ends_with(rest));
    assert!(parse_search("").is_err());
    assert!(parse_search(")").is_err());
}

#[test]
fn parse_added_rejects_impossible_dates() {
    assert!(parse_added("after:13/45/2011").is_err());
    assert!(parse_added("after:02/30/2011").is_err());
    assert!(parse_added("during:10/25/2011").is_err());
}

#[test]
fn parse_i64_reads_signed_numbers() {
    assert_eq!(parse_i64("42"), Some(42));
    assert_eq!(parse_i64("-42"), Some(-42));
    assert_eq!(parse_i64("+7"), Some(7));
    assert_eq!(parse_i64("9223372036854775807"), Some(i64::MAX));
    assert_eq!(parse_i64("-9223372036854775808"), Some(i64::MIN));
    assert_eq!(parse_i64("9223372036854775808"), None);
    assert_eq!(parse_i64(""), None);
    assert_eq!(parse_i64("-"), None);
    assert_eq!(parse_i64("1a"), None);
    for text in ["0", "12", "-3", "+", "x", "1_0", "٣"] {
        assert_eq!(parse_i64(text), text.parse::<i64>().ok());
    }
}

#[test]
fn white_space_is_unicode_white_space() {
    for c in (0u32..0x3100).filter_map(char::from_u32) {
        assert_eq!(is_white_space_char(c), c.is_whitespace(), "{:?}", c);
    }
}

#[test]
fn storage_names_are_id_and_name() {
    let b = blob("cat.png", BlobType::Canon);
    assert_eq!(b.storage_name(TableId::new(3)), "[3] cat.png");
    assert_eq!(b.storage_name(TableId::new(120)), "[120] cat.png");
    let other = blob("2] cat.png", BlobType::Canon);
    assert_ne!(other.storage_name(TableId::new(1)), b.storage_name(TableId::new(12)));
}

#[test]
fn decimal_text_writes_numbers() {
    assert_eq!(decimal_text(0), "0");
    assert_eq!(decimal_text(7), "7");
    assert_eq!(decimal_text(1234), "1234");
    assert_eq!(decimal_text(u64::MAX), u64::MAX.to_string());
}

#[test]
fn basic_command_undo_restores() {
    let mut target = 5u32;
    let mut c = BasicCommand::set(9u32);
    assert!(c.from.is_none());
    assert_eq!(c.apply(&mut target), Ok(()));
    assert_eq!(target, 9);
    assert_eq!(c.from, Some(5));
    assert_eq!(c.undo(&mut target), Ok(()));
    assert_eq!(target, 5);
}

#[test]
fn basic_command_merges() {
    let mut c = BasicCommand::set(9u32);
    let mut target = 5u32;
    c.apply(&mut target).unwrap();
    assert!(matches!(c.merge(BasicCommand::set(5u32)), Merge::Annul));
    assert!(matches!(c.merge(BasicCommand::set(7u32)), Merge::Yes));
    assert_eq!(c.to, 7);
    let mut applied = BasicCommand::set(8u32);
    applied.apply(&mut target).unwrap();
    match c.merge(applied) {
        Merge::No(back) => assert_eq!(back.to, 8),
        _ => panic!("an applied edit stays apart"),
    }
}

#[test]
fn new_items_carry_a_calendar_date() {
    let leap = |y: i32| y % 4 == 0 && (y % 100 != 0 || y % 400 == 0);
    let check = |d: Date| {
        assert!((1..=12).contains(&d.month));
        let days = match d.month {
            2 => if leap(d.year) { 29 } else { 28 },
            4 | 6 | 9 | 11 => 30,
            _ => 31,
        };
        assert!(d.day >= 1 && d.day <= days);
    };
    check(Piece::default().added);
    check(Tag::default().added);
    check(Category::default().added);
    check(art_organize::v1::Piece::default().added);
    let b = blob_for_file("cat.png".to_string(), &vec![1, 2, 3], BlobType::Variant);
    assert_eq!(b.file_name, "cat.png");
    assert_eq!(b.blob_type, BlobType::Variant);
    check(b.added);
    assert_eq!(blob_for_file("dog.png".to_string(), &vec![1, 2, 3], BlobType::Raw).hash, b.hash);
}

#[test]
fn piece_command_undo_restores() {
    let mut p = art_organize::v1::Piece::default();
    assert_eq!(p.name, "New Piece");
    let mut c = PieceCommand::Name(BasicCommand::set("Sunset".to_string()));
    c.apply(&mut p).unwrap();
    assert_eq!(p.name, "Sunset");
    c.undo(&mut p).unwrap();
    assert_eq!(p.name, "New Piece");
    let mut price = PieceCommand::BasePrice(BasicCommand::set(Some(30)));
    price.apply(&mut p).unwrap();
    assert_eq!(p.base_price, Some(30));
    price.undo(&mut p).unwrap();
    assert_eq!(p.base_price, None);
    price.apply(&mut p).unwrap();
    assert_eq!(p.base_price, Some(30));
    price.undo(&mut p).unwrap();
    assert_eq!(p.base_price, None);
}

#[test]
fn first_version_database_upgrades() {
    let mut pieces = Table::new();
    let id = pieces.insert(art_organize::v1::Piece {
        name: "old".to_string(),
        ..art_organize::v1::Piece::default()
    });
    let v1 = DbV1 {
        pieces,
        blobs: Table::new(),
        tags: Table::new(),
        categories: Table::new(),
        media: Default::default(),
        piece_tags: Default::default(),
        tag_category: Default::default(),
    };
    let v2 = DbV2::from_v1(v1);
    let p = v2.pieces.get(TableId::new(id.0)).unwrap();
    assert_eq!(p.description, "old");
    assert_eq!(p.external_id, None);
}

#[test]
fn defaults_have_their_names() {
    assert_eq!(Tag::default().name, "New Tag");
    assert_eq!(Category::default().name, "New Tag Category");
    assert_eq!(Category::default().color, [0, 0, 0, 0]);
    let p = Piece::default();
    assert_eq!(p.description, "");
    assert!(p.added.month >= 1 && p.added.month <= 12);
    assert!(p.added.year >= 2020);
}

#[test]
fn gui_state_back_undoes_goto() {
    let mut gui = GuiState::default();
    assert_eq!(gui.label(), None);
    gui.goto(GuiView::Gallery(Gallery));
    assert_eq!(gui.label(), Some("Gallery"));
    gui.goto(GuiView::Help(Help));
    assert_eq!(gui.label(), None);
    gui.go_back();
    assert_eq!(gui.label(), Some("Gallery"));
    gui.go_back();
    assert!(matches!(gui.current(), GuiView::Home(_)));
    gui.go_back();
    assert!(matches!(gui.current(), GuiView::Home(_)));
}

#[test]
fn gui_state_restarts_on_the_gallery() {
    let mut gui = GuiState::new();
    gui.show_new_piece(TableId::new(4));
    assert_eq!(gui.label(), Some("Piece"));
    match gui.current() {
        GuiView::Piece(p) => assert!(p.edit && p.id.0 == 4),
        _ => panic!("a new piece is shown"),
    }
    gui.restart();
    assert_eq!(gui.label(), Some("Gallery"));
    gui.go_back();
    assert!(matches!(gui.current(), GuiView::Home(_)));
}

#[test]
fn gui_state_leaves_stale_screens() {
    let mut db = small_db();
    let mut gui = GuiState::new();
    gui.goto(GuiView::Tag(TagView { id: TableId::new(1), edit: false }));
    assert!(!gui.leave_if_stale(&db));
    assert_eq!(gui.label(), Some("Tag"));
    db.delete(TableId::<Tag>::new(1));
    assert!(gui.leave_if_stale(&db));
    assert!(matches!(gui.current(), GuiView::Home(_)));
    gui.goto(GuiView::Piece(PieceView { id: TableId::new(0), edit: false }));
    assert!(!gui.leave_if_stale(&db));
}

#[test]
fn search_header_clicks() {
    let mut s = SearchView::default();
    assert!(s.ascending && s.sorted_by == SortedBy::Name && !s.shows_reversed());
    s.click_header(SortedBy::Name);
    assert!(!s.ascending && s.shows_reversed());
    s.click_header(SortedBy::Added);
    assert!(s.ascending && s.sorted_by == SortedBy::Added && s.shows_reversed());
    s.click_header(SortedBy::Added);
    assert!(!s.ascending && !s.shows_reversed());
    s.click_header(SortedBy::Price);
    assert!(s.ascending && s.sorted_by == SortedBy::Price);
}

#[test]
fn frontend_trail() {
    let mut f = Frontend::new(vec![1u8]);
    f.image_data_mut().push(2);
    assert_eq!(f.image_data_mut(), &vec![1, 2]);
    let current = f.take_current();
    assert_eq!(current.label(), Some("Gallery"));
    f.handle_view_response(ViewResponse::Push(GuiView::Help(Help)), current);
    let top = f.take_current();
    assert_eq!(top.label(), None);
    f.handle_view_response(ViewResponse::Pop, top);
    let back = f.take_current();
    assert_eq!(back.label(), Some("Gallery"));
    f.handle_view_response(ViewResponse::Unchanged, back);
    let again = f.take_current();
    f.handle_view_response(ViewResponse::Replace(GuiView::Help(Help)), again);
    assert_eq!(f.take_current().label(), None);
}

#[test]
fn frontend_pop_to_truncates() {
    let mut f = Frontend::new(());
    let g = f.take_current();
    f.handle_view_response(ViewResponse::Push(GuiView::Help(Help)), g);
    let h = f.take_current();
    f.handle_view_response(ViewResponse::Push(GuiView::Search(SearchView::default())), h);
    f.pop_to(0);
    assert_eq!(f.take_current().label(), Some("Gallery"));
}

#[test]
fn save_status_notices() {
    assert_eq!(save_status(None), "Not saved recently.");
    assert_eq!(save_status(Some(0)), "Saved less than 1 minute ago.");
    assert_eq!(save_status(Some(59)), "Saved less than 1 minute ago.");
    assert_eq!(save_status(Some(60)), "Saved 1 minute ago.");
    assert_eq!(save_status(Some(119)), "Saved 1 minute ago.");
    assert_eq!(save_status(Some(120)), "Saved 2 minutes ago.");
    assert_eq!(save_status(Some(6000)), "Saved 100 minutes ago.");
}

#[test]
fn data_file_is_inside_the_directory() {
    let f = data_file(path(&["home", "me", "art"]));
    assert_eq!(names(&f), vec!["home", "me", "art", "data.aodb"]);
    assert_eq!(names(&data_file(path(&[]))), vec!["data.aodb"]);
}

#[test]
fn config_file_is_inside_the_directory() {
    let f = config_file_in(path(&["etc", "art"]));
    assert_eq!(names(&f), vec!["etc", "art", "config.toml"]);
    if let Some(f) = get_file() {
        assert_eq!(f.parts.last().map(|s| s.as_str()), Some("config.toml"));
        assert!(f.parts.len() >= 2);
    }
    let (qualifier, organization, application) = project_names();
    assert_eq!((qualifier.as_str(), organization.as_str(), application.as_str()), ("com", "aos-studios", "ArtOrganize"));
    assert!(Config::default().data_dirs.is_empty());
}

#[test]
fn first_time_hands_out_folders_in_order() {
    let mut f = FirstTime::default();
    assert!(f.update().is_none());
    f.folder_picked(path(&["a"]));
    f.folder_picked(path(&["b"]));
    assert_eq!(names(&f.update().unwrap()), vec!["a"]);
    f.folder_picked(path(&["c"]));
    assert_eq!(names(&f.update().unwrap()), vec!["b"]);
    assert_eq!(names(&f.update().unwrap()), vec!["c"]);
    assert!(f.update().is_none());
}

#[test]
fn backend_performs_actions() {
    let mut b = DbBackend::init_at_directory(path(&["db"]));
    let piece = match b.perform(DbAction::NewPiece) {
        DbOutcome::NewPiece(id) => id,
        _ => panic!("a piece is made"),
    };
    let tag = match b.perform(DbAction::NewTag) {
        DbOutcome::NewTag(id) => id,
        _ => panic!("a tag is made"),
    };
    assert_eq!(b.inner.tags.get(tag).unwrap().name, "New Tag");
    match b.perform(DbAction::AttachTag(Attach { src: piece, dest: tag })) {
        DbOutcome::Done(done) => assert!(done),
        _ => panic!("attaching reports"),
    }
    match b.perform(DbAction::RemoveTag(Attach { src: piece, dest: tag })) {
        DbOutcome::Done(done) => assert!(done),
        _ => panic!("removing reports"),
    }
    match b.perform(DbAction::DeleteTag(tag)) {
        DbOutcome::Done(done) => assert!(done),
        _ => panic!("deleting reports"),
    }
    match b.perform(DbAction::DeleteTag(tag)) {
        DbOutcome::Done(done) => assert!(!done),
        _ => panic!("deleting reports"),
    }
}

#[test]
fn backend_moves_renamed_blob_files() {
    let mut b = DbBackend::init_at_directory(path(&["db"]));
    let p = b.inner.create_piece(piece("p", Date::from_ymd(2020, 1, 1), None, None));
    let (id, file) = b.add_blob(p, blob("a.png", BlobType::Canon)).unwrap();
    assert_eq!(names(&file), vec!["db", "[0] a.png"]);
    assert_eq!(names(&b.storage_for(id)), vec!["db", "[0] a.png"]);
    match b.perform(DbAction::EditBlob(Edit { id, data: blob("a.png", BlobType::Raw) })) {
        DbOutcome::BlobEdited { moved } => assert!(moved.is_none()),
        _ => panic!("editing a blob reports"),
    }
    match b.perform(DbAction::EditBlob(Edit { id, data: blob("b.png", BlobType::Raw) })) {
        DbOutcome::BlobEdited { moved: Some((from, to)) } => {
            assert_eq!(names(&from), vec!["db", "[0] a.png"]);
            assert_eq!(names(&to), vec!["db", "[0] b.png"]);
        }
        _ => panic!("a renamed blob moves"),
    }
    assert!(b.add_blob(TableId::new(5), blob("c.png", BlobType::Raw)).is_none());
}

#[test]
fn cleaning_drops_blobs_without_piece() {
    let mut b = DbBackend::init_at_directory(path(&["db"]));
    let p = b.inner.create_piece(piece("p", Date::from_ymd(2020, 1, 1), None, None));
    let kept = b.add_blob(p, blob("kept.png", BlobType::Canon)).unwrap().0;
    let lost = b.inner.create_blob(blob("lost.png", BlobType::Raw));
    b.remove_dangling_blobs();
    assert!(b.inner.blobs.has(kept));
    assert!(!b.inner.blobs.has(lost));
    let files = b.blob_files();
    assert_eq!(files.len(), 1);
    assert_eq!(names(&files[0]), vec!["db", "[0] kept.png"]);
}

#[test]
fn stored_names_follow_the_pattern() {
    assert!(is_stored_name("[0] a.png"));
    assert!(is_stored_name("[123] "));
    assert!(is_stored_name("[١٢] unicode digits"));
    assert!(!is_stored_name("[] a.png"));
    assert!(!is_stored_name("[1]a.png"));
    assert!(!is_stored_name(" [1] a.png"));
    assert!(!is_stored_name("data.aodb"));
}

#[test]
fn trash_takes_unknown_stored_files() {
    let entries = vec![
        DirEntry { path: path(&["db", "[0] kept.png"]), file_name: Some("[0] kept.png".to_string()) },
        DirEntry { path: path(&["db", "[1] old.png"]), file_name: Some("[1] old.png".to_string()) },
        DirEntry { path: path(&["db", "data.aodb"]), file_name: Some("data.aodb".to_string()) },
        DirEntry { path: path(&["db", "[2] x"]), file_name: None },
        DirEntry { path: path(&["db", "[3] y.png"]), file_name: Some("[3] y.png".to_string()) },
    ];
    let kept = vec![path(&["db", "[0] kept.png"])];
    let trash = trash_candidates(&entries, &kept);
    let trash: Vec<Vec<&str>> = trash.iter().map(names).collect();
    assert_eq!(trash, vec![vec!["db", "[1] old.png"], vec!["db", "[3] y.png"]]);
    assert!(same_path(&path(&["a", "b"]), &path(&["a", "b"])));
    assert!(!same_path(&path(&["a", "b"]), &path(&["a"])));
    assert!(!same_path(&path(&["a", "b"]), &path(&["a", "c"])));
}

#[test]
fn summary_of_found_pieces() {
    let db = small_db();
    let found = vec![TableId::new(0), TableId::new(1)];
    let s = summarize(&found, &db).unwrap();
    assert_eq!(s.base_spent, 30);
    assert_eq!(s.tip_spent, 5);
    assert_eq!(s.total_spent, 35);
    assert_eq!(s.tip_percentage, 14);
    assert_eq!(s.average_price, 15);
    assert_eq!(s.average_tip, 2);
    assert_eq!(s.piece_count, 2);
    assert_eq!(s.blob_count, 0);
    assert!(summarize(&Vec::new(), &db).is_none());
}

#[test]
fn summary_rounds_toward_zero() {
    let mut db = DbV2::default();
    let a = db.create_piece(piece("a", Date::from_ymd(2020, 1, 1), Some(-7), Some(3)));
    let b = db.create_piece(piece("b", Date::from_ymd(2020, 1, 1), None, None));
    let blob_id = db.create_blob(blob("x.png", BlobType::Canon));
    db.attach_blob(Attach { src: b, dest: blob_id });
    let s = summarize(&vec![a, b], &db).unwrap();
    assert_eq!(s.average_price, -3);
    assert_eq!(s.total_spent, -4);
    assert_eq!(s.tip_percentage, -75);
    assert_eq!(s.blob_count, 1);
    let c = db.create_piece(piece("c", Date::from_ymd(2020, 1, 1), Some(5), Some(-5)));
    let zero = summarize(&vec![c], &db).unwrap();
    assert_eq!(zero.total_spent, 0);
    assert_eq!(zero.tip_percentage, 0);
}

#[test]
fn searches_duplicate() {
    let (_, s) = parse_search("a|!(b c)").unwrap();
    assert_eq!(s.duplicate(), s);
    assert!(matches!(s, Search::Or(_)));
}

#[test]
fn table_rebuilt_from_rows() {
    let t: Table<&str> = Table::from_rows(vec![(1, "b"), (4, "e")]);
    assert_eq!(t.get(TableId::new(1)), Some(&"b"));
    assert_eq!(t.get(TableId::new(4)), Some(&"e"));
    assert!(!t.has(TableId::new(0)));
    let mut t = t;
    assert_eq!(t.insert("d").0, 3);
    assert_eq!(t.insert("c").0, 2);
    assert_eq!(t.insert("a").0, 0);
    assert_eq!(t.insert("f").0, 5);
    let empty: Table<u8> = Table::from_rows(Vec::new());
    assert!(empty.keys().is_empty());
}

#[test]
fn table_survives_saving() {
    let mut t: Table<u32> = Table::new();
    for v in 0..6 {
        t.insert(v);
    }
    t.remove(TableId::new(2));
    t.remove(TableId::new(5));
    let pairs: Vec<(usize, u32)> = t.iter().iter().map(|(id, v)| (id.0, **v)).collect();
    let back = Table::from_rows(pairs.clone());
    let again: Vec<(usize, u32)> = back.iter().iter().map(|(id, v)| (id.0, **v)).collect();
    assert_eq!(pairs, again);
}

#[test]
fn stable_order_keeps_ties() {
    assert_eq!(stable_order(&vec![3, 1, 2, 1, 3]), vec![1, 3, 2, 0, 4]);
    assert_eq!(stable_order(&vec![]), Vec::<usize>::new());
    assert_eq!(stable_order(&vec![-5, i128::MAX, i128::MIN]), vec![2, 0, 1]);
}

#[test]
fn search_results_ordered_by_column() {
    let db = small_db();
    let mut s = SearchView::default();
    s.query_result = vec![TableId::new(0), TableId::new(1), TableId::new(2)];
    assert_eq!(ids(&s.order_found(&db)), vec![0, 1, 2]);
    s.click_header(SortedBy::Price);
    assert_eq!(ids(&s.order_found(&db)), vec![2, 0, 1]);
    s.click_header(SortedBy::Price);
    assert_eq!(ids(&s.order_found(&db)), vec![1, 0, 2]);
    s.click_header(SortedBy::Added);
    assert_eq!(ids(&s.order_found(&db)), vec![1, 0, 2]);
    s.click_header(SortedBy::Added);
    assert_eq!(ids(&s.order_found(&db)), vec![2, 0, 1]);
}

#[test]
fn gallery_shows_each_piece_by_its_canon_blob() {
    let mut db = small_db();
    let thumbs = |db: &DbV2| -> Vec<(usize, Option<usize>)> {
        gallery(db).iter().map(|(p, b)| (p.0, b.map(|b| b.0))).collect()
    };
    assert_eq!(thumbs(&db), vec![(0, None), (1, None), (2, None)]);
    let p0 = TableId::new(0);
    let raw = db.create_blob(blob("raw.png", BlobType::Raw));
    let v1 = db.create_blob(blob("v1.png", BlobType::Variant));
    db.attach_blob(Attach { src: p0, dest: raw });
    db.attach_blob(Attach { src: p0, dest: v1 });
    assert_eq!(thumbs(&db), vec![(0, None), (1, None), (2, None)]);
    let c2 = db.create_blob(blob("c2.png", BlobType::Canon));
    let c1 = db.create_blob(blob("c1.png", BlobType::Canon));
    db.attach_blob(Attach { src: p0, dest: c1 });
    db.attach_blob(Attach { src: p0, dest: c2 });
    assert_eq!(thumbs(&db), vec![(0, Some(c2.0)), (1, None), (2, None)]);
}

#[test]
fn price_fields() {
    assert_eq!(price_text(None), "");
    assert_eq!(price_text(Some(0)), "0");
    assert_eq!(price_text(Some(25)), "25");
    assert_eq!(price_text(Some(-25)), "-25");
    assert_eq!(price_text(Some(i64::MIN)), i64::MIN.to_string());
    for p in [None, Some(0), Some(7), Some(-7), Some(i64::MAX), Some(i64::MIN)] {
        assert_eq!(entered_base_price(&price_text(p)), p);
    }
    assert_eq!(entered_base_price("abc"), None);
    assert_eq!(entered_tip_price(Some(3), ""), None);
    assert_eq!(entered_tip_price(Some(3), "12"), Some(12));
    assert_eq!(entered_tip_price(Some(3), "1x"), Some(3));
    assert_eq!(entered_tip_price(None, "1x"), None);
}

#[test]
fn prices_round_to_whole_units() {
    assert_eq!(entered_base_price("12.6"), Some(13));
    assert_eq!(entered_base_price("12.4"), Some(12));
    assert_eq!(entered_base_price("12.5"), Some(13));
    assert_eq!(entered_base_price("12.49"), Some(12));
    assert_eq!(entered_base_price("-12.5"), Some(-13));
    assert_eq!(entered_base_price("-12.4"), Some(-12));
    assert_eq!(entered_base_price("+3.7"), Some(4));
    assert_eq!(entered_base_price("12."), Some(12));
    assert_eq!(entered_base_price(".5"), Some(1));
    assert_eq!(entered_base_price("0.2"), Some(0));
    assert_eq!(entered_base_price("."), None);
    assert_eq!(entered_base_price(""), None);
    assert_eq!(entered_base_price("-"), None);
    assert_eq!(entered_base_price("1.2.3"), None);
    assert_eq!(entered_base_price("1,5"), None);
    assert_eq!(entered_base_price("9223372036854775807.4"), Some(i64::MAX));
    assert_eq!(entered_base_price("9223372036854775807.5"), None);
    assert_eq!(entered_base_price("-9223372036854775808.4"), Some(i64::MIN));
    assert_eq!(entered_tip_price(Some(3), "4.5"), Some(5));
    assert_eq!(entered_tip_price(Some(3), "4.x"), Some(3));
    assert_eq!(entered_tip_price(Some(3), "."), Some(3));
}

#[test]
fn actions_need_room_and_rows() {
    let db = small_db();
    assert!(can_perform_now(&db, &DbAction::NewPiece));
    assert!(!can_perform_now(&db, &DbAction::EditBlob(Edit { id: TableId::new(0), data: blob("x", BlobType::Raw) })));
    assert!(can_perform_now(&db, &DbAction::DeleteBlob(TableId::new(0))));
}

#[test]
fn text_order_is_str_order() {
    let words = ["", "a", "B", "b", "ab", "abc", "é", "z", "Z", "éa"];
    for a in words {
        for b in words {
            assert_eq!(text_less(a, b), a < b, "{:?} {:?}", a, b);
        }
    }
    let keys: Vec<String> = ["pear", "apple", "fig", "apple"].iter().map(|s| s.to_string()).collect();
    assert_eq!(stable_text_order(&keys), vec![1, 3, 2, 0]);
}

#[test]
fn search_results_ordered_by_name() {
    let mut db = DbV2::default();
    let a = db.create_piece(piece("Zebra", Date::from_ymd(2020, 1, 1), None, None));
    let b = db.create_piece(piece("apple", Date::from_ymd(2020, 1, 2), None, None));
    let c = db.create_piece(piece("Apple", Date::from_ymd(2020, 1, 3), None, None));
    let mut s = SearchView::default();
    s.query_result = vec![a, b, c];
    assert_eq!(ids(&s.order_found(&db)), vec![1, 2, 0]);
    s.click_header(SortedBy::Name);
    assert_eq!(ids(&s.order_found(&db)), vec![0, 2, 1]);
}

#[test]
fn gallery_is_unsorted_and_unfiltered() {
    let mut db = small_db();
    let b0 = db.create_blob(blob("a.png", BlobType::Canon));
    let b1 = db.create_blob(blob("b.png", BlobType::Variant));
    let b2 = db.create_blob(blob("c.png", BlobType::Canon));
    db.attach_blob(Attach { src: TableId::new(0), dest: b0 });
    db.attach_blob(Attach { src: TableId::new(1), dest: b1 });
    db.attach_blob(Attach { src: TableId::new(2), dest: b2 });
    let shown: Vec<(usize, Option<usize>)> =
        gallery(&db).iter().map(|(p, b)| (p.0, b.map(|b| b.0))).collect();
    assert_eq!(shown, vec![(0, Some(b0.0)), (1, None), (2, Some(b2.0))]);
    let all = db.pieces.keys();
    assert_eq!(ids(&newest_first(&db, &all)), vec![1, 0, 2]);
}

#[test]
fn tag_tally_counts_and_names() {
    let mut db = small_db();
    let ant = db.create_tag(tag("ant"));
    db.attach_tag(Attach { src: TableId::new(2), dest: ant });
    let all = vec![TableId::new(0), TableId::new(1), TableId::new(2)];
    let t: Vec<(usize, usize)> = tag_tally(&all, &db, false).iter().map(|(n, t)| (*n, t.0)).collect();
    assert_eq!(t, vec![(2, 0)]);
    let t: Vec<(usize, usize)> = tag_tally(&all, &db, true).iter().map(|(n, t)| (*n, t.0)).collect();
    assert_eq!(t, vec![(1, ant.0), (2, 0), (1, 1)]);
    let none: Vec<(usize, usize)> = tag_tally(&Vec::new(), &db, true).iter().map(|(n, t)| (*n, t.0)).collect();
    assert!(none.is_empty());
}

#[test]
fn gallery_lists_most_used_tags_by_name() {
    let mut db = small_db();
    let ant = db.create_tag(tag("ant"));
    let _unused = db.create_tag(tag("yak"));
    db.attach_tag(Attach { src: TableId::new(2), dest: ant });
    db.attach_tag(Attach { src: TableId::new(1), dest: ant });
    db.attach_tag(Attach { src: TableId::new(0), dest: ant });
    // ant: 3 pieces, cat: 2, dog: 1, yak: none.
    assert_eq!(ids(&gallery_tags(&db, 20)), vec![ant.0, 0, 1]);
    assert_eq!(ids(&gallery_tags(&db, 2)), vec![ant.0, 0]);
    assert_eq!(ids(&gallery_tags(&db, 0)), Vec::<usize>::new());
}

#[test]
fn piece_tabs_list_blobs_by_type() {
    let mut db = small_db();
    let p0 = TableId::new(0);
    let r1 = db.create_blob(blob("r1.png", BlobType::Raw));
    let c1 = db.create_blob(blob("c1.png", BlobType::Canon));
    let r2 = db.create_blob(blob("r2.png", BlobType::Raw));
    for b in [r2, c1, r1] {
        db.attach_blob(Attach { src: p0, dest: b });
    }
    assert_eq!(ids(&blobs_of_type(&db, p0, BlobType::Raw)), vec![r1.0, r2.0]);
    assert_eq!(ids(&blobs_of_type(&db, p0, BlobType::Canon)), vec![c1.0]);
    assert!(blobs_of_type(&db, p0, BlobType::Draft).is_empty());
}

#[test]
fn category_lists_its_tags_by_name() {
    let mut db = small_db();
    let c = db.create_category(Category { name: "animals".to_string(), color: [0; 4], added: Date::from_ymd(2020, 1, 1) });
    let ant = db.create_tag(tag("ant"));
    for t in [TableId::new(1), TableId::new(0), ant] {
        db.attach_category(Attach { src: t, dest: Some(c) });
    }
    let listed: Vec<(usize, usize)> = category_tags(&db, c).iter().map(|(t, n)| (t.0, *n)).collect();
    assert_eq!(listed, vec![(ant.0, 0), (0, 2), (1, 1)]);
}

#[test]
fn image_cache_loads_once() {
    let mut cache: ImageCache<&str> = ImageCache::new();
    let b = TableId::new(3);
    assert!(cache.request(b, true));
    assert!(!cache.request(b, true));
    assert!(cache.request(b, false));
    cache.load_failed(b, true);
    assert!(cache.request(b, true));
    cache.loaded(b, "thumb", true);
    cache.loaded(b, "full", false);
    assert_eq!(cache.thumbnails.get(&3), Some(&"thumb"));
    cache.invalidate(b);
    assert!(cache.images.is_empty() && cache.thumbnails.is_empty());
    assert!(cache.request(b, false));
}

#[test]
fn image_cache_forgets_deleted_blobs() {
    let mut db = small_db();
    let kept = db.create_blob(blob("k.png", BlobType::Canon));
    let lost = db.create_blob(blob("l.png", BlobType::Canon));
    let mut cache: ImageCache<u8> = ImageCache::new();
    for b in [kept, lost] {
        cache.request(b, false);
        cache.request(b, true);
        cache.loaded(b, 1, false);
        cache.loaded(b, 2, true);
    }
    db.delete(lost);
    cache.forget_missing(&db);
    assert!(cache.images.contains_key(&kept.0) && !cache.images.contains_key(&lost.0));
    assert!(!cache.thumbnails.contains_key(&lost.0));
    assert!(!cache.requested_images.contains(&lost.0));
    assert!(cache.requested_thumbnails.contains(&kept.0));
}

#[test]
fn tag_editor_groups_by_category() {
    let mut db = small_db();
    let c = db.create_category(Category { name: "animals".to_string(), color: [0; 4], added: Date::from_ymd(2020, 1, 1) });
    let ant = db.create_tag(tag("ant"));
    let bee = db.create_tag(tag("bee"));
    db.attach_category(Attach { src: TableId::new(1), dest: Some(c) });
    db.attach_category(Attach { src: ant, dest: Some(c) });
    let p0 = TableId::new(0);
    assert_eq!(ids(&piece_tags_in(&db, p0, Some(c))), vec![1]);
    assert_eq!(ids(&piece_tags_in(&db, p0, None)), vec![0]);
    assert_eq!(ids(&addable_tags(&db, p0, Some(c))), vec![ant.0]);
    assert_eq!(ids(&addable_tags(&db, p0, None)), vec![bee.0]);
    let p2 = TableId::new(2);
    assert_eq!(ids(&addable_tags(&db, p2, None)), vec![bee.0, 0]);
    assert!(piece_tags_in(&db, p2, None).is_empty());
}

#[test]
fn tag_list_lines() {
    let mut db = small_db();
    let c = db.create_category(Category { name: "animals".to_string(), color: [0; 4], added: Date::from_ymd(2020, 1, 1) });
    db.attach_category(Attach { src: TableId::new(1), dest: Some(c) });
    let lines = tag_list(&db);
    assert_eq!(lines.len(), 2);
    assert_eq!((lines[0].tag.0, lines[0].pieces), (0, 2));
    assert!(lines[0].category.is_none());
    assert_eq!((lines[1].tag.0, lines[1].pieces), (1, 1));
    assert_eq!(lines[1].category.map(|(c, n)| (c.0, n)), Some((c.0, 1)));
}

#[test]
fn tag_screen_shows_canonical_pictures() {
    let mut db = small_db();
    let c0 = db.create_blob(blob("c0.png", BlobType::Canon));
    let v1 = db.create_blob(blob("v1.png", BlobType::Variant));
    let c1 = db.create_blob(blob("c1.png", BlobType::Canon));
    db.attach_blob(Attach { src: TableId::new(0), dest: c0 });
    db.attach_blob(Attach { src: TableId::new(1), dest: v1 });
    let cat = TableId::new(0);
    assert_eq!(ids(&tag_pictures(&db, cat)), vec![c0.0]);
    db.attach_blob(Attach { src: TableId::new(1), dest: c1 });
    assert_eq!(ids(&tag_pictures(&db, cat)), vec![c1.0, c0.0]);
}

#[test]
fn type_names_and_orders() {
    let names: Vec<&str> = BlobType::all().iter().map(|t| t.text()).collect();
    assert_eq!(names, vec!["Canon", "Variant", "Raw", "Draft"]);
    let names: Vec<&str> = MediaType::all().iter().map(|t| t.text()).collect();
    assert_eq!(names, vec!["Image", "Text"]);
    let names: Vec<&str> = SourceType::all().iter().map(|t| t.text()).collect();
    assert_eq!(names, vec!["Fan Creation", "Official", "Commission"]);
}

#[test]
fn context_menu_commands() {
    assert_eq!(context_command("C:\\art.exe", "init \"%V\""), "\"C:\\art.exe\" init \"%V\"");
    assert_eq!(context_command("", ""), "\"\" ");
}

#[test]
fn screens_follow_editor_answers() {
    let mut gui = GuiState::new();
    let piece_id = TableId::new(4);
    gui.goto(GuiView::Piece(PieceView { id: piece_id, edit: true }));
    let effect = piece_response(piece_id, EditPieceResponse::OpenTag(TableId::new(2)));
    assert!(gui.follow(effect).is_none());
    match gui.current() {
        GuiView::Tag(t) => assert!(t.id.0 == 2 && !t.edit),
        _ => panic!("the tag is opened"),
    }
    gui.go_back();
    let effect = piece_response(piece_id, EditPieceResponse::Delete);
    match gui.follow(effect) {
        Some(DbAction::DeletePiece(id)) => assert_eq!(id.0, 4),
        _ => panic!("the piece is deleted"),
    }
    assert!(matches!(gui.current(), GuiView::Home(_)));
    let e = tag_response(TableId::new(1), EditTagResponse::Nothing);
    assert!(e.action.is_none() && !e.back && e.open.is_none());
    let e = tag_response(TableId::new(1), EditTagResponse::Delete);
    assert!(matches!(e.action, Some(DbAction::DeleteTag(_))) && e.back);
    let e = category_response(TableId::new(1), EditCategoryResponse::Delete);
    assert!(matches!(e.action, Some(DbAction::DeleteCategory(_))) && e.back);
    let e = blob_response(EditBlobResponse::Deleted(TableId::new(3)));
    assert!(matches!(e.action, Some(DbAction::DeleteBlob(_))) && e.back);
    let e = item_response(TableId::new(1), ItemViewResponse::Add);
    assert!(e.action.is_none() && e.open.is_none());
    let e = item_response(TableId::new(1), ItemViewResponse::Open);
    assert!(matches!(e.open, Some(GuiView::Tag(_))));
}

#[test]
fn deleting_a_blob_takes_it_off_its_pieces() {
    let mut db = small_db();
    let p0 = TableId::new(0);
    let p1 = TableId::new(1);
    let b = db.create_blob(blob("shared.png", BlobType::Canon));
    db.attach_blob(Attach { src: p0, dest: b });
    db.attach_blob(Attach { src: p1, dest: b });
    assert_eq!(ids(&db.pieces_for_blob(b)), vec![0, 1]);
    assert!(db.delete(b));
    assert!(db.blobs_for_piece(p0).is_empty());
    assert!(db.blobs_for_piece(p1).is_empty());
    assert!(db.exists_id(p0) && db.exists_id(p1));
}

fn shaped(s: &Search) -> bool {
    match s {
        Search::Or(cs) | Search::And(cs) => cs.len() >= 2 && cs.iter().all(shaped),
        Search::Negate(b) => shaped(b),
        Search::Test(_) => true,
    }
}

#[test]
fn parsed_searches_are_well_shaped() {
    for q in ["a", "a b", "a|b c", "(a b)|!(c d|e)", "!!a", "a b c|d|e (f)"] {
        let (_, s) = parse_search(q).unwrap();
        assert!(shaped(&s), "{}", q);
    }
}

#[test]
fn search_bar_refreshes_results() {
    let db = small_db();
    let mut s = SearchView::default();
    s.refresh("cat", &db);
    assert_eq!(ids(&s.query_result), vec![0, 1]);
    s.refresh("(", &db);
    assert_eq!(ids(&s.query_result), vec![0, 1]);
    s.refresh("dog", &db);
    assert_eq!(ids(&s.query_result), vec![0]);
}
