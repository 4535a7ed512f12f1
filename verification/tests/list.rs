use clippet::capture::payload_item;
use clippet::filter::{format_item_line, item_label, rank, row_of_item, row_to_hist, update_filter};
use clippet::fuzzy::can_match;
use clippet::geometry::rect;
use clippet::item::{dark_palette, ClipItem, FilterRow, ItemType};
use clippet::list::{click, context_row, double_click_pastes, keyboard_anchor, list_event, row_command, row_menu, row_tops, ListClick, ListEvent, ListReply, ListView, RowCommand};
use clippet::row::{layout_row, plan_row, preview_runs, RowMeasures};
use clippet::session::Session;

fn entry(id: u64, preview: &str, pinned: bool) -> ClipItem {
    let mut c = payload_item(id, 100, ItemType::Text, "T", preview.as_bytes().to_vec());
    c.pinned = pinned;
    c
}

fn order(rows: &[FilterRow]) -> Vec<usize> {
    rows.iter().map(|r| r.hist_index).collect()
}

fn plain_rows(n: usize) -> Vec<FilterRow> {
    (0..n).map(|i| FilterRow { hist_index: i, indices: vec![] }).collect()
}

fn list_of(n: usize, view_h: i32) -> ListView {
    let hist: Vec<ClipItem> = (0..n as u64).map(|i| entry(i, "x", false)).collect();
    let mut list = ListView::new();
    list.resize(view_h);
    list.list_rebuild(&hist, &plain_rows(n));
    list
}

#[test]
fn no_query_lists_pinned_then_newest() {
    let hist = vec![entry(0, "a", false), entry(1, "b", true), entry(2, "c", false), entry(3, "d", true)];
    let rows = update_filter(&hist, "  ");
    assert_eq!(order(&rows), vec![3, 1, 2, 0]);
    assert!(rows.iter().all(|r| r.indices.is_empty()));
}

#[test]
fn query_keeps_what_matches_in_order() {
    let hist = vec![entry(0, "hello world", false), entry(1, "xyz", false), entry(2, "how", true)];
    assert_eq!(order(&update_filter(&hist, " hw ")), vec![2, 0]);
    assert!(update_filter(&hist, "wh").is_empty());
    assert_eq!(order(&update_filter(&hist, "HELLO")), Vec::<usize>::new());
    assert_eq!(order(&update_filter(&vec![entry(0, "HELLO", false)], "hello")), vec![0]);
}

#[test]
fn better_scores_come_first() {
    let hist = vec![entry(0, "foo bar", false), entry(1, "f-o-o-b", false), entry(2, "foobar", false)];
    let rows = update_filter(&hist, "foob");
    assert_eq!(rows[0].hist_index, 2);
    assert_eq!(rows.len(), 3);
}

#[test]
fn matches_are_byte_offsets() {
    let hist = vec![entry(0, "\u{e9}\u{20ac}x", false)];
    let rows = update_filter(&hist, "x");
    assert_eq!(rows[0].indices, vec![5]);
    let rows = update_filter(&hist, "\u{e9}x");
    assert_eq!(rows[0].indices, vec![0, 5]);
}

#[test]
fn results_are_ranked() {
    let hist = vec![entry(0, "abc", false), entry(1, "abc", true), entry(2, "abc", false), entry(3, "abc", false)];
    let results = vec![Some((5, vec![0])), Some((1, vec![1, 2])), None, Some((5, vec![]))];
    let rows = rank(&hist, &results);
    assert_eq!(order(&rows), vec![1, 3, 0]);
    assert_eq!(rows[0].indices, vec![1, 2]);
    let results = vec![Some((5, vec![])), None, Some((7, vec![])), Some((-1, vec![]))];
    assert_eq!(order(&rank(&hist, &results)), vec![2, 0, 3]);
}

#[test]
fn searching_has_a_limit() {
    assert!(can_match(83, 100));
    assert!(!can_match(1 << 30, 1));
    assert!(!can_match(1, 1 << 26));
}

#[test]
fn rows_and_items() {
    let rows = vec![FilterRow { hist_index: 4, indices: vec![] }, FilterRow { hist_index: 2, indices: vec![] }];
    let hist: Vec<ClipItem> = (0..5).map(|i| entry(i, "x", false)).collect();
    assert_eq!(row_to_hist(&rows, &hist, 0), Some(4));
    assert_eq!(row_to_hist(&rows, &hist, 1), Some(2));
    assert_eq!(row_to_hist(&rows, &hist, 2), None);
    assert_eq!(row_to_hist(&rows, &hist, -1), None);
    // A row whose item is gone leads nowhere.
    let fewer: Vec<ClipItem> = (0..4).map(|i| entry(i, "x", false)).collect();
    assert_eq!(row_to_hist(&rows, &fewer, 0), None);
    assert_eq!(row_to_hist(&rows, &fewer, 1), Some(2));
    assert_eq!(row_of_item(&rows, 2), Some(1));
    assert_eq!(row_of_item(&rows, 3), None);
}

#[test]
fn labels_and_lines() {
    let mut c = entry(1, "let x", false);
    assert_eq!(item_label(&c), "[T]");
    assert_eq!(format_item_line(&c, 100), "[T]  let x  just now");
    c.kind = ItemType::Code;
    assert_eq!(item_label(&c), "[C]");
    c.lang = Some(String::new());
    assert_eq!(item_label(&c), "[C]");
    c.lang = Some("rs".to_string());
    assert_eq!(format_item_line(&c, 160), "[C:rs]  let x  1m ago");
    c.kind = ItemType::Text;
    assert_eq!(item_label(&c), "[T]");
}

#[test]
fn image_rows_are_taller() {
    let mut hist = vec![entry(0, "a", false), entry(1, "b", false)];
    hist[1].kind = ItemType::Image;
    let mut rows = plain_rows(2);
    rows.push(FilterRow { hist_index: 9, indices: vec![] });
    assert_eq!(row_tops(&hist, &rows), vec![0, 34, 136, 170]);
    assert_eq!(row_tops(&hist, &vec![]), vec![0]);
}

#[test]
fn rows_are_found_by_position() {
    let list = list_of(3, 50);
    assert_eq!(list.row_count(), 3);
    assert_eq!(list.content_height(), 102);
    assert_eq!(list.max_scroll(), 52);
    assert_eq!(list.row_at_content_y(-1), None);
    assert_eq!(list.row_at_content_y(0), Some(0));
    assert_eq!(list.row_at_content_y(33), Some(0));
    assert_eq!(list.row_at_content_y(34), Some(1));
    assert_eq!(list.row_at_content_y(101), Some(2));
    assert_eq!(list.row_at_content_y(102), None);
    assert_eq!(list.row_bounds(2), Some((68, 102)));
    assert_eq!(list.row_bounds(3), None);
    assert_eq!(ListView::new().row_at_content_y(0), None);
}

#[test]
fn scrolling_eases_and_arrives() {
    let mut list = list_of(100, 100);
    list.scroll_to_target(100);
    assert!(list.animating);
    assert!(list.anim_tick());
    assert_eq!(list.scroll_y, 25);
    let mut ticks = 1;
    let mut last = list.scroll_y;
    while list.animating {
        assert!(list.anim_tick());
        assert!(list.scroll_y > last && list.scroll_y <= 100);
        last = list.scroll_y;
        ticks += 1;
    }
    assert_eq!(list.scroll_y, 100);
    assert!(ticks < 100);
    assert!(!list.anim_tick());
    list.scroll_to_target(-5);
    assert_eq!(list.target, 0);
    list.anim_tick();
    assert_eq!(list.scroll_y, 75);
    list.scroll_immediate(1_000_000);
    assert_eq!(list.scroll_y, 3300);
    assert!(!list.animating);
}

#[test]
fn selection_is_kept_in_view() {
    let mut list = list_of(10, 100);
    assert_eq!(list.sel, -1);
    list.list_set_sel(5);
    assert_eq!(list.sel, 5);
    assert_eq!(list.scroll_y, 6 * 34 - 100);
    list.list_set_sel(0);
    assert_eq!(list.scroll_y, 0);
    list.list_set_sel(99);
    assert_eq!(list.sel, 9);
    list.list_set_sel(-3);
    assert_eq!(list.sel, -1);
    list.list_set_sel(9);
    let hist = vec![entry(0, "a", false)];
    list.list_rebuild(&hist, &plain_rows(1));
    assert_eq!(list.sel, 0);
    assert_eq!(list.scroll_y, 0);
    list.list_rebuild(&hist, &vec![]);
    assert_eq!(list.sel, -1);
}

#[test]
fn wheel_and_scroll_bar() {
    let mut list = list_of(100, 100);
    list.wheel(-120);
    assert_eq!(list.target, 60);
    list.wheel(-121);
    assert_eq!(list.target, 120);
    list.wheel(60);
    assert_eq!(list.target, 90);
    list.handle_vscroll(1, 0);
    assert_eq!(list.target, 124);
    list.handle_vscroll(0, 0);
    assert_eq!(list.target, 90);
    list.handle_vscroll(3, 0);
    assert_eq!(list.target, 190);
    list.handle_vscroll(2, 0);
    assert_eq!(list.target, 90);
    list.handle_vscroll(7, 0);
    assert_eq!(list.target, 3300);
    list.handle_vscroll(6, 0);
    assert_eq!(list.target, 0);
    list.handle_vscroll(5, 77);
    assert_eq!((list.scroll_y, list.target), (77, 77));
    list.handle_vscroll(4, 78);
    assert_eq!(list.scroll_y, 78);
    list.handle_vscroll(8, 5);
    assert_eq!(list.scroll_y, 78);
    assert_eq!(list.scrollbar(), (3399, 100, 78));
    assert_eq!(ListView::new().scrollbar(), (0, 0, 0));
}

#[test]
fn visible_rows_touch_the_window() {
    let mut list = list_of(10, 68);
    assert_eq!(list.visible_rows(), vec![(0, 0, 34), (1, 34, 68)]);
    list.scroll_immediate(10);
    assert_eq!(list.visible_rows(), vec![(0, -10, 24), (1, 24, 58), (2, 58, 92)]);
    list.resize(-4);
    assert_eq!(list.view_h, 0);
}

#[test]
fn clicks_select_or_pin() {
    let mut list = list_of(3, 50);
    assert_eq!(click(&list, 10, 40, 200), ListClick::Select(1));
    assert_eq!(click(&list, 178, 40, 200), ListClick::TogglePin(1));
    assert_eq!(click(&list, 177, 40, 200), ListClick::Select(1));
    assert_eq!(click(&list, 10, 500, 200), ListClick::Nothing);
    list.scroll_immediate(34);
    assert_eq!(click(&list, 10, 0, 200), ListClick::Select(1));
    assert!(double_click_pastes(177, 200));
    assert!(!double_click_pastes(178, 200));
}

#[test]
fn context_menu_row() {
    let mut list = list_of(3, 200);
    assert_eq!(context_row(&list, true, 0), None);
    assert_eq!(context_row(&list, false, 70), Some(2));
    assert_eq!(context_row(&list, false, 102), None);
    list.list_set_sel(1);
    assert_eq!(context_row(&list, true, 0), Some(1));
    assert_eq!(keyboard_anchor(&list, 1), (0, 68));
    assert_eq!(keyboard_anchor(&list, 7), (0, 0));
    let texts: Vec<(u32, &str)> = row_menu(false).iter().map(|e| (e.id, e.text)).collect();
    assert_eq!(texts, vec![(200, "Paste"), (201, "Pin"), (202, "Copy to clipboard"), (0, ""), (203, "Delete this item")]);
    assert_eq!(row_menu(true)[1].text, "Unpin");
    assert_eq!(row_command(200), RowCommand::Paste);
    assert_eq!(row_command(201), RowCommand::TogglePin);
    assert_eq!(row_command(202), RowCommand::Copy);
    assert_eq!(row_command(203), RowCommand::Delete);
    assert_eq!(row_command(0), RowCommand::Nothing);
}

#[test]
fn list_messages_are_read() {
    assert_eq!(list_event(0x000f, 0, 0), ListEvent::Paint);
    assert_eq!(list_event(0x0014, 0, 0), ListEvent::Erase);
    assert_eq!(list_event(0x0115, 0x0007_0005, 0), ListEvent::Scroll { code: 5 });
    assert_eq!(list_event(0x020a, 0xff88_0000, 0), ListEvent::Wheel { delta: -120 });
    assert_eq!(list_event(0x0113, 1, 0), ListEvent::Tick);
    assert_eq!(list_event(0x0113, 2, 0), ListEvent::Other);
    assert_eq!(list_event(0x0201, 0, 0x0003_fffe), ListEvent::Press { x: -2, y: 3 });
    assert_eq!(list_event(0x0203, 0, 7), ListEvent::DoubleClick { x: 7 });
    assert_eq!(list_event(0x007b, 0, 0xffff_ffff_ffff_ffff), ListEvent::Menu { x: -1, y: -1 });
    assert_eq!(list_event(0x0005, 0, 0), ListEvent::Resize);
    assert_eq!(list_event(0x0007, 0, 0), ListEvent::FocusChange);
    assert_eq!(list_event(0x0008, 0, 0), ListEvent::FocusChange);
    assert_eq!(list_event(0x0082, 0, 0), ListEvent::Destroy);
    assert_eq!(list_event(0x9999, 0, 0), ListEvent::Other);
}

#[test]
fn list_steps() {
    let mut list = list_of(10, 100);
    assert_eq!(list.step(ListEvent::Paint, 200, 100, 0), ListReply::Paint);
    assert_eq!(list.step(ListEvent::Erase, 200, 100, 0), ListReply::Erased);
    assert_eq!(list.step(ListEvent::Wheel { delta: -120 }, 200, 100, 0), ListReply::Quiet);
    assert!(list.animating);
    assert_eq!(list.step(ListEvent::Tick, 200, 100, 0), ListReply::Redraw);
    assert_eq!(list.scroll_y, 15);
    assert_eq!(list.step(ListEvent::Scroll { code: 5 }, 200, 100, 0), ListReply::Redraw);
    assert_eq!(list.step(ListEvent::Tick, 200, 100, 0), ListReply::Quiet);
    assert_eq!(list.step(ListEvent::Press { x: 5, y: 40 }, 200, 100, 0), ListReply::Redraw);
    assert_eq!(list.sel, 1);
    assert_eq!(list.step(ListEvent::Press { x: 190, y: 0 }, 200, 100, 0), ListReply::TogglePin(0));
    assert_eq!(list.sel, 1);
    assert_eq!(list.step(ListEvent::DoubleClick { x: 5 }, 200, 100, 0), ListReply::Paste);
    assert_eq!(list.step(ListEvent::DoubleClick { x: 190 }, 200, 100, 0), ListReply::Quiet);
    assert_eq!(list.step(ListEvent::Menu { x: 1, y: 2 }, 200, 100, 0), ListReply::Menu { x: 1, y: 2 });
    assert_eq!(list.step(ListEvent::Menu { x: -1, y: -1 }, 200, 100, 0), ListReply::KeyboardMenu);
    assert_eq!(list.step(ListEvent::Menu { x: -1, y: 0 }, 200, 100, 0), ListReply::Menu { x: -1, y: 0 });
    assert_eq!(list.step(ListEvent::Resize, 200, 400, 0), ListReply::Redraw);
    assert_eq!(list.max_scroll(), 0);
    assert_eq!(list.step(ListEvent::FocusChange, 200, 400, 0), ListReply::Redraw);
    assert_eq!(list.step(ListEvent::Destroy, 200, 400, 0), ListReply::Default);
    assert_eq!(list.step(ListEvent::Other, 200, 400, 0), ListReply::Default);
}

#[test]
fn closed_list_stops_moving() {
    let mut list = list_of(10, 100);
    list.step(ListEvent::Wheel { delta: -120 }, 200, 100, 0);
    list.step(ListEvent::Tick, 200, 100, 0);
    assert!(list.animating);
    assert_eq!(list.step(ListEvent::Destroy, 200, 100, 0), ListReply::Default);
    assert!(!list.animating);
    assert_eq!((list.scroll_y, list.target), (15, 60));
    // A scroll code that means nothing leaves the list alone.
    assert_eq!(list.step(ListEvent::Scroll { code: 8 }, 200, 100, 0), ListReply::Quiet);
    assert_eq!((list.scroll_y, list.target, list.animating), (15, 60, false));
}

#[test]
fn previews_are_cut_into_runs() {
    let runs: Vec<(String, bool)> = preview_runs("a\u{e9}bcd", &vec![1, 3]).into_iter().map(|r| (r.text, r.matched)).collect();
    assert_eq!(runs, vec![("a".to_string(), false), ("\u{e9}b".to_string(), true), ("cd".to_string(), false)]);
    let runs: Vec<(String, bool)> = preview_runs("ab", &vec![0]).into_iter().map(|r| (r.text, r.matched)).collect();
    assert_eq!(runs, vec![("a".to_string(), true), ("b".to_string(), false)]);
    assert_eq!(preview_runs("abc", &vec![]).len(), 1);
    assert!(preview_runs("", &vec![]).is_empty());
    assert!(!preview_runs("abc", &vec![77])[0].matched);
}

#[test]
fn rows_are_planned() {
    let pal = dark_palette();
    let mut c = entry(1, "abc", false);
    let row = FilterRow { hist_index: 0, indices: vec![1] };
    let p = plan_row(&c, &row, &pal, false, 100);
    assert_eq!(p.label, "[T]");
    assert_eq!(p.label_color, pal.tag_text);
    assert_eq!(p.runs.len(), 3);
    assert_eq!(p.age, "just now");
    assert_eq!((p.age_color, p.glyph_color, p.glyph), (pal.subtext, pal.pin_dim, '\u{2606}'));
    assert!(!p.thumbnail);
    let p = plan_row(&c, &row, &pal, true, 100);
    assert_eq!((p.age_color, p.glyph_color), (pal.text, pal.text));
    c.pinned = true;
    c.kind = ItemType::Image;
    let p = plan_row(&c, &row, &pal, true, 100);
    assert_eq!((p.glyph_color, p.glyph), (pal.accent, '\u{2605}'));
    assert!(p.thumbnail && p.runs.is_empty());
}

#[test]
fn rows_are_laid_out() {
    let m = RowMeasures { font_h: 16, label_w: 20, age_w: 50, glyph_w: 12 };
    let l = layout_row(&rect(0, 34, 380, 68), &m, false);
    assert_eq!((l.text_y, l.label_x, l.glyph_x), (43, 12, 363));
    assert_eq!((l.preview.left, l.preview.right), (42, 288));
    assert_eq!(l.age_x, 298);
    let l = layout_row(&rect(0, 0, 380, 102), &m, true);
    assert_eq!((l.thumb_x, l.thumb_y, l.preview.left), (42, 17, 120));
    let l = layout_row(&rect(0, 0, 50, 10), &m, false);
    assert_eq!((l.age_x, l.preview.left, l.preview.right), (42, 42, 42));
    assert_eq!(l.text_y, -3);
}

#[test]
fn session_keeps_list_and_history_in_step() {
    let hist = vec![entry(1, "one", false), entry(2, "two", false), entry(3, "three", false)];
    let mut s = Session::start(hist, 4);
    assert_eq!(order(&s.rows), vec![2, 1, 0]);
    assert_eq!(s.list.sel, 0);
    assert_eq!(s.selected(), Some(2));
    // Pinning moves the item to the top and keeps it selected.
    assert!(s.toggle_pin_at_row(2));
    assert_eq!(order(&s.rows), vec![0, 2, 1]);
    assert_eq!(s.selected(), Some(0));
    assert!(s.toggle_pin_at_row(0));
    assert_eq!(order(&s.rows), vec![2, 1, 0]);
    assert_eq!(s.list.sel, 2);
    assert!(!s.toggle_pin_at_row(9));
    s.set_query("t");
    assert_eq!(s.rows.len(), 2);
    assert_eq!(s.list.row_count(), 2);
    // A new item shows up where it matches.
    assert!(s.add(entry(4, "ten", false)).is_some());
    assert_eq!(s.rows.len(), 3);
    assert_eq!(s.next_id, 5);
    assert!(s.add(entry(5, "ten", false)).is_none());
    assert_eq!(s.next_id, 6);
    let mut gone = s.rows.iter().map(|r| s.hist[r.hist_index].id).collect::<Vec<_>>();
    let first = s.delete_at_row(0).unwrap();
    gone.retain(|id| *id != first.id);
    assert_eq!(s.rows.len(), gone.len());
    assert!(s.delete_at_row(-1).is_none());
    s.clear();
    assert!(s.rows.is_empty());
    assert_eq!(s.selected(), None);
    assert_eq!(s.list.row_count(), 0);
}

#[test]
fn session_shows_the_selected_row() {
    let hist = (1..=5).map(|i| entry(i, &format!("item {i}"), false)).collect();
    let mut s = Session::start(hist, 6);
    assert_eq!(s.list.sel, 0);
    s.list.step(ListEvent::Resize, 200, 68, 0);
    s.set_query("");
    assert_eq!((s.list.scroll_y, s.list.target, s.list.animating), (0, 0, false));
    // The list jumps to the row that stays selected, and back to the first one.
    assert!(s.toggle_pin_at_row(0));
    s.list.list_set_sel(4);
    let low = s.list.scroll_y;
    assert_eq!(low, s.list.max_scroll());
    assert!(s.toggle_pin_at_row(0));
    assert_eq!((s.list.sel, s.list.scroll_y), (0, 0));
    s.list.list_set_sel(4);
    s.delete_at_row(1);
    assert_eq!((s.list.sel, s.list.scroll_y), (0, 0));
    let empty = Session::start(vec![], 1);
    assert_eq!((empty.list.sel, empty.list.scroll_y), (-1, 0));
}
