use newsdeck::dashboard::{handle_key, DashboardSnapshot, KeyAction};
use newsdeck::feed::FeedItem;
use newsdeck::layout::{make_header, render_feed_cell, render_frame, visible_chat, wrap_desc,
    CellLine, Geometry};

fn item(title: &str, date: &str, desc: &str) -> FeedItem {
    FeedItem { title: title.to_string(), date: date.to_string(), desc: desc.to_string() }
}

fn header_text(line: &CellLine) -> String {
    match line {
        CellLine::Header(h) => format!("{}{}{}{}{}", h.marker, h.title, h.padding, h.date, h.tag),
        _ => panic!("expected a header line"),
    }
}

fn header_title(line: &CellLine) -> String {
    match line {
        CellLine::Header(h) => h.title.clone(),
        _ => panic!("expected a header line"),
    }
}

#[test]
fn long_title_is_cut_with_ellipsis() {
    let it = item("abcdefghijklmnopqrstuvwxy", "02 Jan", "");
    let h = make_header(&it, None, 30);
    assert_eq!(h.title, "abcdefghijklmnopq...");
    assert_eq!(h.title.chars().count(), 20);
}

#[test]
fn header_fills_inner_width_exactly() {
    // Reserved columns: marker 2, date 6, margin 2, one trailing column.
    let long = item("abcdefghijklmnopqrstuvwxy", "02 Jan", "");
    let short = item("short", "02 Jan", "");
    for it in [&long, &short] {
        let h = make_header(it, None, 30);
        let width = h.marker.chars().count() + h.title.chars().count()
            + h.padding.chars().count() + h.date.chars().count() + h.tag.chars().count();
        assert_eq!(width, 29);
    }
}

#[test]
fn header_tag_is_bracketed_and_counted() {
    let it = item("abcdefghijklmnopqrstuvwxyz012345", "02 Jan", "");
    let h = make_header(&it, Some("World"), 40);
    assert_eq!(h.tag, " [World]");
    let width = h.marker.chars().count() + h.title.chars().count() + h.padding.chars().count()
        + h.date.chars().count() + h.tag.chars().count();
    assert_eq!(width, 39);
}

#[test]
fn header_date_is_cut_to_ten_chars() {
    let it = item("t", "0123456789abcdef", "");
    let h = make_header(&it, None, 30);
    assert_eq!(h.date, "0123456789");
}

#[test]
fn descriptions_wrap_by_character_count() {
    assert_eq!(wrap_desc("abcdefghij", 4), vec!["abcd".to_string(), "efgh".to_string()]);
    assert_eq!(wrap_desc("abcdef", 4), vec!["abcd".to_string(), "ef".to_string()]);
    assert_eq!(wrap_desc("ab", 4), vec!["ab".to_string()]);
    assert_eq!(wrap_desc("", 4), Vec::<String>::new());
}

#[test]
fn description_newlines_collapse_before_wrapping() {
    assert_eq!(wrap_desc("ab\ncd", 5), vec!["ab cd".to_string()]);
}

#[test]
fn empty_feed_renders_placeholder() {
    let feed: Vec<FeedItem> = Vec::new();
    let cell = render_feed_cell(&feed, 0, 2, 20, None);
    assert_eq!(cell.len(), 1);
    assert!(matches!(&cell[0], CellLine::Placeholder(s) if s == "   Fetching data..."));
}

#[test]
fn rotation_window_selects_items_modulo_length() {
    let feed = vec![item("one", "", ""), item("two", "", ""), item("three", "", "")];
    let cell0 = render_feed_cell(&feed, 0, 2, 20, None);
    assert_eq!(header_title(&cell0[0]), "one");
    let cell2 = render_feed_cell(&feed, 2, 2, 20, None);
    assert_eq!(header_title(&cell2[0]), "three");
    // The second visible slot wraps around to the first item.
    let titles: Vec<String> = cell2.iter().filter_map(|l| match l {
        CellLine::Header(h) => Some(h.title.clone()),
        _ => None,
    }).collect();
    assert_eq!(titles, vec!["three".to_string(), "one".to_string()]);
}

#[test]
fn divider_stands_between_items_only() {
    let feed = vec![item("one", "", "dd"), item("two", "", "")];
    let cell = render_feed_cell(&feed, 0, 2, 10, None);
    let dividers = cell.iter().filter(|l| matches!(l, CellLine::Divider(_))).count();
    assert_eq!(dividers, 1);
    assert!(!matches!(cell.last().unwrap(), CellLine::Divider(_)));
}

fn sample_snapshot() -> DashboardSnapshot {
    let mut snap = DashboardSnapshot::new();
    let batch = vec![
        vec![item("left a", "01 Jan", "text one")],
        Vec::new(),
        vec![item("left c", "03 Jan", "text three")],
        vec![item("mid a", "04 Jan", "text four")],
        vec![item("mid b", "05 Jan", "text five")],
        vec![item("mid c", "06 Jan", "text six")],
    ];
    snap.apply_feed_batch(batch);
    snap.apply_chat_message("alice", "hi");
    snap.apply_chat_message("bob", "yo");
    snap
}

fn sample_geometry() -> Geometry {
    Geometry { left_inner: 30, mid_inner: 30, visible_count: 2, chat_limit: 20 }
}

fn sample_tags() -> Vec<Option<String>> {
    vec![
        None,
        None,
        None,
        Some("Stocks".to_string()),
        Some("World".to_string()),
        Some("Singapore".to_string()),
    ]
}

#[test]
fn failed_category_shows_placeholder_others_render() {
    let snap = sample_snapshot();
    let frame = render_frame(&snap, &sample_geometry(), &sample_tags());
    assert_eq!(frame.cells.len(), 6);
    assert!(matches!(&frame.cells[1][0], CellLine::Placeholder(_)));
    for i in [0usize, 2, 3, 4, 5] {
        assert!(matches!(&frame.cells[i][0], CellLine::Header(_)));
    }
    assert_eq!(header_text(&frame.cells[0][0]).chars().count(), 29);
}

#[test]
fn rendering_twice_gives_identical_frames() {
    let snap = sample_snapshot();
    let geom = sample_geometry();
    let tags = sample_tags();
    let a = render_frame(&snap, &geom, &tags);
    let b = render_frame(&snap, &geom, &tags);
    assert_eq!(a, b);
}

#[test]
fn chat_column_shows_last_entries_in_reverse_key_order() {
    let snap = sample_snapshot();
    let shown = visible_chat(&snap.chat, 20);
    assert_eq!(shown.len(), 2);
    assert_eq!(shown[0].0, "bob");
    assert_eq!(shown[1].0, "alice");
    let one = visible_chat(&snap.chat, 1);
    assert_eq!(one.len(), 1);
    assert_eq!(one[0].0, "bob");
}

#[test]
fn tick_advances_offset_and_batch_resets_it() {
    let mut snap = sample_snapshot();
    assert_eq!(snap.offset, 0);
    snap.on_tick();
    snap.on_tick();
    assert_eq!(snap.offset, 2);
    let empty_batch: Vec<Vec<FeedItem>> = (0..6).map(|_| Vec::new()).collect();
    snap.apply_feed_batch(empty_batch);
    assert_eq!(snap.offset, 0);
}

#[test]
fn keys_map_to_their_actions() {
    assert_eq!(handle_key('q'), KeyAction::Quit);
    assert_eq!(handle_key('r'), KeyAction::Refresh);
    assert_eq!(handle_key('x'), KeyAction::Ignore);
}
