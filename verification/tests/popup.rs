use clippet::chrome::{action_at, button_rect, buttons_left, close_button_colors, close_cross, darken, footer_rect, hit_test, hit_window_part, hover_step, icon_color, is_pressed, layout_popup, layout_titlebar, plan_footer, popup_position, search_chrome, sel_rect_above_resize, theme_toggle_tip, tip_for, titlebar_rect, tooltip_rects, FooterAction, HoverEvent, Icon, Line, Place};
use clippet::geometry::{rect, Rect};
use clippet::icons::{icon_strokes, moon_discs, Stroke};
use clippet::item::{dark_palette, light_palette};
use clippet::message::{high_word, low_word, signed_high, signed_low};
use clippet::popup::{after_publish, handle_popup_key, paste_actions, popup_event, popup_step, Action, Event, Facts, PopupState, Reply};
use clippet::settings::{after_autostart_prompt, detect_palette, initial_popup_size, quoted, should_prompt_autostart, system_is_light, theme_palette, tray_menu, tray_tip_units, tray_tooltip, with_popup_size, with_theme, Settings};

fn state() -> PopupState {
    PopupState { suppress_next: false, footer_hot: -1, tracking: false, size_w: 400, size_h: 500, prev_fg: 7, is_dark: true }
}

fn flush(st: &PopupState) -> Action {
    Action::FlushSize { w: st.size_w, h: st.size_h }
}

fn facts() -> Facts {
    Facts { own: 1, visible: false, foreground: 9, owner_of_other: 0, window: Some(rect(100, 100, 500, 600)), client: Some((400, 500)), control: 0 }
}

fn actions(st: &PopupState, e: Event, f: &Facts) -> Vec<Action> {
    popup_step(st, e, f).actions
}

#[test]
fn words_of_a_parameter() {
    assert_eq!(low_word(0x1234_abcd), 0xabcd);
    assert_eq!(high_word(0x1234_abcd), 0x1234);
    assert_eq!(signed_low(0xffff), -1);
    assert_eq!(signed_high(0x8000_0000), -0x8000);
    assert_eq!(signed_high(0xffff_ffff_7fff_0000), 0x7fff);
}

#[test]
fn footer_buttons() {
    // 400 wide: five buttons of 40 from 194 on, below the line at 456.
    assert_eq!(buttons_left(400), 194);
    assert_eq!(hit_test(400, 500, 194, 457), 0);
    assert_eq!(hit_test(400, 500, 233, 499), 0);
    assert_eq!(hit_test(400, 500, 234, 457), 1);
    assert_eq!(hit_test(400, 500, 393, 457), 4);
    assert_eq!(hit_test(400, 500, 394, 457), -1);
    assert_eq!(hit_test(400, 500, 193, 457), -1);
    assert_eq!(hit_test(400, 500, 200, 456), -1);
    assert_eq!(hit_test(400, 500, 200, 500), -1);
    assert_eq!(hit_test(i32::MIN, i32::MAX, 0, 0), -1);
    let wanted = [FooterAction::ThemeToggle, FooterAction::ClearHistory, FooterAction::Settings, FooterAction::About, FooterAction::Quit];
    for i in 0..5i32 {
        assert_eq!(action_at(400, 500, 200 + 40 * i, 470), Some(wanted[i as usize]));
        let b = button_rect(400, 500, i);
        assert_eq!(b, rect(194 + 40 * i, 457, 234 + 40 * i, 500));
    }
    assert_eq!(action_at(400, 500, 5, 470), None);
    assert_eq!(tooltip_rects(400, 500)[4], rect(354, 457, 394, 494));
    assert_eq!(footer_rect(400, 500), rect(0, 456, 400, 500));
    assert_eq!(sel_rect_above_resize(&rect(1, 2, 3, 14)), rect(1, 2, 3, 8));
}

#[test]
fn footer_is_planned() {
    let pal = dark_palette();
    let plan = plan_footer(400, 500, 2, true, &pal);
    assert_eq!(plan.len(), 5);
    assert_eq!(plan.iter().map(|b| b.icon).collect::<Vec<_>>(), vec![Icon::Sun, Icon::Trash, Icon::Cog, Icon::Info, Icon::Power]);
    assert_eq!(plan_footer(400, 500, -1, false, &pal)[0].icon, Icon::Moon);
    assert_eq!(plan[2].highlight, Some(rect(274, 457, 314, 494)));
    assert_eq!(plan[1].highlight, None);
    assert_eq!((plan[0].cx, plan[0].cy), (214, 475));
    for i in 0..5 {
        assert_eq!(plan[i].color, icon_color(i as i32, &pal));
    }
    assert_eq!(plan[1].color, pal.tag_rich);
    assert_eq!(plan[4].color, pal.tag_file);
    assert_eq!(icon_color(9, &pal), pal.text);
}

#[test]
fn footer_tips() {
    assert_eq!(tip_for(0, true), "Switch to Light Mode");
    assert_eq!(theme_toggle_tip(false), "Switch to Dark Mode");
    assert_eq!((tip_for(1, true), tip_for(2, true), tip_for(3, true), tip_for(4, true), tip_for(5, true)), ("Clear History", "Settings", "About", "Quit", ""));
}

#[test]
fn icons_have_strokes() {
    let sun = icon_strokes(Icon::Sun, 100, 50);
    assert_eq!(sun.len(), 9);
    assert_eq!(sun[0], Stroke::Ring(rect(96, 46, 104, 54)));
    assert_eq!(sun[8], Stroke::Line(Line { x1: 104, y1: 54, x2: 106, y2: 56 }));
    assert_eq!(icon_strokes(Icon::Trash, 0, 0)[2], Stroke::Line(Line { x1: -7, y1: -6, x2: -5, y2: 8 }));
    assert_eq!(icon_strokes(Icon::Cog, 0, 0).len(), 6);
    assert_eq!(icon_strokes(Icon::Info, 0, 0).len(), 3);
    assert_eq!(icon_strokes(Icon::Power, 0, 0).len(), 1);
    assert!(icon_strokes(Icon::Moon, 0, 0).is_empty());
    assert_eq!(moon_discs(10, 20), (rect(2, 12, 18, 28), rect(7, 12, 23, 28)));
}

#[test]
fn colors_are_darkened_by_twelve_percent() {
    for c in 0..=255u32 {
        let want = (c as f32 * 0.88) as u32;
        assert_eq!(darken(c), want);
        assert_eq!(darken(c << 8), want << 8);
        assert_eq!(darken(c << 16), want << 16);
    }
    assert_eq!(darken(0xff000000), 0);
}

#[test]
fn close_button_follows_the_pointer() {
    let pal = light_palette();
    assert_eq!(close_button_colors(false, true, &pal), (pal.bg, pal.text));
    assert_eq!(close_button_colors(true, false, &pal), (0x001C2BC4, 0x00FFFFFF));
    assert_eq!(close_button_colors(true, true, &pal), (darken(0x001C2BC4), 0x00FFFFFF));
    assert_eq!(hover_step(false, HoverEvent::Move), (true, true, true));
    assert_eq!(hover_step(true, HoverEvent::Move), (true, false, false));
    assert_eq!(hover_step(true, HoverEvent::Leave), (false, false, true));
    assert!(is_pressed(0x0011));
    assert!(!is_pressed(0x0010));
    let (a, b) = close_cross(&rect(0, 0, 46, 40));
    assert_eq!(a, Line { x1: 18, y1: 15, x2: 29, y2: 26 });
    assert_eq!(b, Line { x1: 28, y1: 15, x2: 17, y2: 26 });
}

#[test]
fn controls_have_their_places() {
    let l = layout_popup(400, 500);
    assert_eq!(l.close, Place { x: 354, y: 0, w: 46, h: 40 });
    assert_eq!(l.title, Place { x: 12, y: 0, w: 342, h: 48 });
    assert_eq!(l.edit, Place { x: 48, y: 60, w: 326, h: 28 });
    assert_eq!(l.list, Place { x: 0, y: 102, w: 400, h: 354 });
    let tiny = layout_popup(10, 10);
    assert_eq!((tiny.title.w, tiny.edit.w, tiny.list.h), (0, 0, 0));
    assert_eq!(layout_titlebar(10).0.x, -36);
    assert_eq!(titlebar_rect(&rect(0, 0, 400, 500)), rect(0, 0, 400, 48));
}

#[test]
fn search_box_has_a_surface() {
    let c = search_chrome(&rect(0, 0, 400, 500)).unwrap();
    assert_eq!(c.surface, rect(12, 54, 388, 94));
    assert_eq!(c.glass, rect(26, 67, 40, 81));
    assert_eq!(c.handle, Line { x1: 37, y1: 78, x2: 43, y2: 84 });
    assert!(search_chrome(&rect(0, 0, 40, 500)).is_none());
    assert!(search_chrome(&rect(0, 0, 41, 500)).is_some());
}

#[test]
fn edges_resize_and_title_drags() {
    let w = rect(100, 100, 500, 600);
    for (x, y, part) in [(100, 100, 13), (499, 105, 14), (105, 599, 16), (494, 594, 17), (300, 103, 12), (300, 597, 15), (102, 300, 10), (497, 300, 11), (300, 120, 2), (300, 147, 2), (300, 148, 1)] {
        assert_eq!(hit_window_part(&w, x, y), part, "{} {}", x, y);
    }
}

#[test]
fn popup_opens_on_the_screen() {
    let work = rect(0, 0, 1920, 1040);
    assert_eq!(popup_position(100, 100, 400, 500, &Some(work)), (100, 100));
    assert_eq!(popup_position(1900, 1000, 400, 500, &Some(work)), (1520, 540));
    assert_eq!(popup_position(-50, -60, 400, 500, &Some(work)), (0, 0));
    assert_eq!(popup_position(10, 10, 4000, 5000, &Some(work)), (0, 0));
    // An unknown screen counts as a common one.
    assert_eq!(popup_position(1900, 1000, 400, 500, &None), (1520, 580));
}

#[test]
fn messages_are_read() {
    assert_eq!(popup_event(0x0001, 0, 0), Event::Create);
    assert_eq!(popup_event(0x8001, 0, 0x0202), Event::TrayClick);
    assert_eq!(popup_event(0x8001, 0, 0x0205), Event::TrayMenu);
    assert_eq!(popup_event(0x8001, 0, 0x0200), Event::TrayOther);
    assert_eq!(popup_event(0x0312, 1, 0), Event::Hotkey { id: 1 });
    assert_eq!(popup_event(0x031d, 0, 0), Event::ClipboardUpdate);
    assert_eq!(popup_event(0x0006, 0x10000, 55), Event::Deactivate { other: 55 });
    assert_eq!(popup_event(0x0006, 1, 55), Event::Activate);
    assert_eq!(popup_event(0x0010, 0, 0), Event::Close);
    assert_eq!(popup_event(0x0083, 1, 0), Event::CalcSize { client: true });
    assert_eq!(popup_event(0x0085, 0, 0), Event::NcPaint);
    assert_eq!(popup_event(0x0084, 0, 0xfffe_0003), Event::HitTest { x: 3, y: -2 });
    assert_eq!(popup_event(0x000f, 0, 0), Event::Paint);
    assert_eq!(popup_event(0x0024, 0, 0), Event::MinSize);
    assert_eq!(popup_event(0x0111, 0x0300_0001, 0), Event::Command { code: 0x300, id: 1 });
    assert_eq!(popup_event(0x0201, 0, 0x0002_0001), Event::Press { x: 1, y: 2 });
    assert_eq!(popup_event(0x0200, 0, 0x0002_0001), Event::Move { x: 1, y: 2 });
    assert_eq!(popup_event(0x02a3, 0, 0), Event::Leave);
    assert_eq!(popup_event(0x0133, 0, 0), Event::EditColors);
    for m in [0x0134, 0x0135, 0x0138] {
        assert_eq!(popup_event(m, 0, 0), Event::ControlColors);
    }
    assert_eq!(popup_event(0x002b, 0, 0), Event::DrawItem);
    assert_eq!(popup_event(0x002c, 0, 0), Event::MeasureItem);
    assert_eq!(popup_event(0x0005, 0, 0xffff_0010), Event::Size { w: 16, h: 0xffff });
    assert_eq!(popup_event(0x0002, 0, 0), Event::Destroy);
    assert_eq!(popup_event(0x7777, 0, 0), Event::Other);
}

#[test]
fn hot_key_and_tray_toggle() {
    let st = state();
    let mut f = facts();
    let d = popup_step(&st, Event::Hotkey { id: 1 }, &f);
    assert_eq!(d.actions, vec![Action::Show]);
    assert_eq!(d.state.prev_fg, 9);
    f.foreground = 1;
    assert_eq!(popup_step(&st, Event::TrayClick, &f).state.prev_fg, 7);
    f.visible = true;
    assert_eq!(actions(&st, Event::TrayClick, &f), vec![flush(&st), Action::Hide]);
    assert_eq!(actions(&st, Event::Hotkey { id: 1 }, &f), vec![flush(&st), Action::Hide]);
    assert!(actions(&st, Event::Hotkey { id: 2 }, &f).is_empty());
    assert_eq!(actions(&st, Event::TrayMenu, &f), vec![Action::OpenTrayMenu]);
    assert!(actions(&st, Event::TrayOther, &f).is_empty());
}

#[test]
fn own_clipboard_changes_are_skipped_once() {
    let st = after_publish(&state(), true);
    assert!(st.suppress_next);
    let d = popup_step(&st, Event::ClipboardUpdate, &facts());
    assert!(d.actions.is_empty());
    let d = popup_step(&d.state, Event::ClipboardUpdate, &facts());
    assert_eq!(d.actions, vec![Action::Capture]);
    assert!(!after_publish(&state(), false).suppress_next);
}

#[test]
fn last_window_is_remembered() {
    let st = state();
    let mut f = facts();
    assert_eq!(popup_step(&st, Event::Deactivate { other: 33 }, &f).state.prev_fg, 33);
    assert_eq!(popup_step(&st, Event::Deactivate { other: 0 }, &f).state.prev_fg, 7);
    assert_eq!(popup_step(&st, Event::Deactivate { other: 1 }, &f).state.prev_fg, 7);
    f.owner_of_other = 1;
    assert_eq!(popup_step(&st, Event::Deactivate { other: 33 }, &f).state.prev_fg, 7);
    assert_eq!(popup_step(&st, Event::Activate, &f).state.prev_fg, 7);
}

#[test]
fn commands_are_dispatched() {
    let st = state();
    let f = facts();
    let run = |code, id| actions(&st, Event::Command { code, id }, &f);
    assert_eq!(run(2, 2), vec![Action::Paste]);
    assert_eq!(run(0x300, 1), vec![Action::Filter]);
    assert_eq!(run(0, 3), vec![flush(&st), Action::Hide]);
    assert_eq!(run(0, 100), vec![Action::Show]);
    assert_eq!(run(0, 101), vec![Action::ClearHistory]);
    assert_eq!(run(0, 102), vec![Action::ShowSettings]);
    assert_eq!(run(0, 104), vec![Action::ShowAbout]);
    assert_eq!(run(0, 103), vec![Action::Quit]);
    assert!(run(0, 1).is_empty());
    assert!(run(1, 100).is_empty());
    assert_eq!(actions(&st, Event::Close, &f), vec![flush(&st), Action::Hide]);
}

#[test]
fn footer_presses_are_dispatched() {
    let st = state();
    let mut f = facts();
    let d = popup_step(&st, Event::Press { x: 200, y: 470 }, &f);
    assert_eq!(d.actions, vec![Action::SwitchTheme { light: true }]);
    assert!(!d.state.is_dark);
    assert_eq!(actions(&st, Event::Press { x: 240, y: 470 }, &f), vec![Action::ClearHistory]);
    assert_eq!(actions(&st, Event::Press { x: 280, y: 470 }, &f), vec![Action::ShowSettings]);
    assert_eq!(actions(&st, Event::Press { x: 320, y: 470 }, &f), vec![Action::ShowAbout]);
    assert_eq!(actions(&st, Event::Press { x: 360, y: 470 }, &f), vec![Action::Quit]);
    assert!(actions(&st, Event::Press { x: 5, y: 5 }, &f).is_empty());
    f.client = None;
    assert!(actions(&st, Event::Press { x: 360, y: 470 }, &f).is_empty());
}

#[test]
fn pointer_is_tracked() {
    let st = state();
    let f = facts();
    let d = popup_step(&st, Event::Move { x: 200, y: 470 }, &f);
    assert_eq!(d.actions, vec![Action::PaintFooter, Action::TrackLeave]);
    assert_eq!((d.state.footer_hot, d.state.tracking), (0, true));
    assert_eq!(d.reply, Reply::Default);
    let again = popup_step(&d.state, Event::Move { x: 201, y: 470 }, &f);
    assert!(again.actions.is_empty());
    let left = popup_step(&d.state, Event::Leave, &f);
    assert_eq!(left.actions, vec![Action::PaintFooter]);
    assert_eq!((left.state.footer_hot, left.state.tracking), (-1, false));
    assert!(popup_step(&left.state, Event::Leave, &f).actions.is_empty());
}

#[test]
fn replies() {
    let st = state();
    let mut f = facts();
    let reply = |e, f: &Facts| popup_step(&st, e, f).reply;
    assert_eq!(reply(Event::Create, &f), Reply::OfBuild);
    assert_eq!(reply(Event::CalcSize { client: true }, &f), Reply::Value(0));
    assert_eq!(reply(Event::CalcSize { client: false }, &f), Reply::Default);
    assert_eq!(reply(Event::NcPaint, &f), Reply::Value(0));
    assert_eq!(reply(Event::HitTest { x: 100, y: 100 }, &f), Reply::Value(13));
    assert_eq!(reply(Event::EditColors, &f), Reply::EditBrush);
    assert_eq!(reply(Event::ControlColors, &f), Reply::WindowBrush);
    assert_eq!(reply(Event::MeasureItem, &f), Reply::Value(1));
    assert_eq!(reply(Event::DrawItem, &f), Reply::Value(1));
    assert_eq!(reply(Event::Other, &f), Reply::Default);
    assert!(actions(&st, Event::DrawItem, &f).is_empty());
    f.control = 3;
    assert_eq!(actions(&st, Event::DrawItem, &f), vec![Action::DrawClose]);
    f.window = None;
    assert_eq!(reply(Event::HitTest { x: 100, y: 100 }, &f), Reply::Default);
    assert_eq!(actions(&st, Event::Paint, &f), vec![Action::PaintFrame]);
    assert_eq!(actions(&st, Event::MinSize, &f), vec![Action::SetMinSize]);
    assert_eq!(actions(&st, Event::Destroy, &f), vec![Action::ShutDown]);
    assert_eq!(actions(&st, Event::Create, &f), vec![Action::Build]);
}

#[test]
fn new_size_is_kept() {
    let mut f = facts();
    f.window = Some(rect(10, 10, 310, 410));
    let d = popup_step(&state(), Event::Size { w: 300, h: 400 }, &f);
    assert_eq!((d.state.size_w, d.state.size_h), (300, 400));
    assert_eq!(d.actions, vec![Action::Place { layout: layout_popup(300, 400) }]);
    f.window = None;
    let d = popup_step(&state(), Event::Size { w: 300, h: 400 }, &f);
    assert_eq!((d.state.size_w, d.state.size_h), (400, 500));
}

#[test]
fn keys_drive_the_popup() {
    let mut st = state();
    st.size_w = 333;
    st.size_h = 444;
    let key = |key: u16, ctrl: bool, list_focused: bool, sel: i32, count: i32| handle_popup_key(&st, key, ctrl, list_focused, sel, count);
    assert_eq!(key(0x1b, false, false, 0, 3), Some(vec![Action::FlushSize { w: 333, h: 444 }, Action::Hide]));
    assert_eq!(key(0x0d, false, false, 0, 3), Some(vec![Action::Paste]));
    assert_eq!(key(0x09, false, true, 0, 3), Some(vec![Action::FocusSearch]));
    assert_eq!(key(0x09, false, false, 0, 3), Some(vec![Action::FocusList]));
    assert_eq!(key(0x50, false, false, 0, 3), None);
    assert_eq!(key(0x50, true, false, 2, 3), Some(vec![Action::TogglePin { row: 2 }]));
    assert_eq!(key(0x50, true, false, -1, 3), Some(vec![]));
    assert_eq!(key(0x28, false, false, -1, 3), Some(vec![Action::Select { row: 0 }]));
    assert_eq!(key(0x28, false, false, 2, 3), Some(vec![Action::Select { row: 2 }]));
    assert_eq!(key(0x26, false, false, 2, 3), Some(vec![Action::Select { row: 1 }]));
    assert_eq!(key(0x26, false, false, 0, 3), Some(vec![Action::Select { row: 0 }]));
    assert_eq!(key(0x28, false, false, -1, 0), Some(vec![]));
    assert_eq!(key(0x26, false, false, -1, 0), Some(vec![]));
    assert_eq!(key(0x41, true, false, 0, 3), None);
}

#[test]
fn pasting_hides_and_goes_back() {
    let mut st = state();
    st.prev_fg = 77;
    assert_eq!(
        paste_actions(&st, true),
        vec![flush(&st), Action::Hide, Action::BringForward { window: 77 }, Action::PressPaste]
    );
    assert!(paste_actions(&st, false).is_empty());
    st.prev_fg = 0;
    assert_eq!(paste_actions(&st, true), vec![flush(&st), Action::Hide, Action::PressPaste]);
}

#[test]
fn settings_are_remembered() {
    let s = Settings::default();
    assert_eq!(initial_popup_size(&s), (400, 500));
    let s = with_popup_size(&s, 300, 279);
    assert_eq!(initial_popup_size(&s), (300, 500));
    assert_eq!(initial_popup_size(&with_popup_size(&s, 280, 280)), (280, 280));
    let s = with_theme(&s, false);
    assert_eq!(s.theme_override, Some(false));
    assert_eq!(s.popup_w, Some(300));
    assert!(should_prompt_autostart(&s));
    let asked = after_autostart_prompt(&s, false);
    assert!(!should_prompt_autostart(&asked));
    assert!(!asked.autostart_enabled);
    assert!(after_autostart_prompt(&s, true).autostart_enabled);
    assert_eq!(asked.popup_h, Some(279));
    assert!(!should_prompt_autostart(&with_theme(&with_popup_size(&asked, 300, 300), true)));
}

#[test]
fn themes_are_chosen() {
    assert_eq!(detect_palette(None, None), (light_palette(), false));
    assert_eq!(detect_palette(None, Some(false)), (dark_palette(), true));
    assert_eq!(detect_palette(Some(true), Some(false)), (light_palette(), false));
    assert_eq!(detect_palette(Some(false), Some(true)), (dark_palette(), true));
    assert_eq!(theme_palette(true), (light_palette(), false));
    assert!(system_is_light(1));
    assert!(!system_is_light(0));
}

#[test]
fn tray_icon_texts() {
    assert_eq!(tray_tooltip(0), "Clippet");
    assert_eq!(tray_tooltip(12), "Clippet \u{2014} 12 pinned");
    assert_eq!(tray_tip_units(3), "Clippet \u{2014} 3 pinned".encode_utf16().collect::<Vec<u16>>());
    let menu: Vec<(u32, &str)> = tray_menu().iter().map(|e| (e.id, e.text)).collect();
    assert_eq!(menu, vec![(100, "Open Clippet"), (101, "Clear History"), (102, "Settings..."), (0, ""), (103, "Exit")]);
    assert_eq!(quoted("C:\\x y.exe"), "\"C:\\x y.exe\"");
}

#[test]
fn rectangles_are_wide_enough() {
    let r = rect(i32::MIN, i32::MIN, i32::MAX, i32::MAX);
    assert_eq!(r, Rect { left: i32::MIN as i64, top: i32::MIN as i64, right: i32::MAX as i64, bottom: i32::MAX as i64 });
}
