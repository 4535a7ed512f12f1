//! The frame of the popup: title bar, search box, list area and footer.

use vstd::prelude::*;

use crate::geometry::Rect;
use crate::item::Palette;

verus! {

pub const TITLEBAR_HEIGHT: i32 = 48;

pub const CLOSE_BTN_W: i32 = 46;

pub const CLOSE_BTN_H: i32 = 40;

pub const TITLE_PAD_X: i32 = 12;

/// The width of the edges by which the popup is resized.
pub const RESIZE_MARGIN: i32 = 6;

pub const SEARCH_HEIGHT: i32 = 40;

pub const SEARCH_INSET: i32 = 12;

pub const SEARCH_TOP_GAP: i32 = 6;

pub const SEARCH_BOTTOM_GAP: i32 = 8;

pub const SEARCH_RADIUS: i32 = 8;

pub const SEARCH_ICON_LEFT_PAD: i32 = 14;

pub const SEARCH_ICON_SIZE: i32 = 14;

pub const SEARCH_ICON_RIGHT_GAP: i32 = 8;

pub const SEARCH_EDIT_VERT_INSET: i32 = 6;

pub const SEARCH_EDIT_RIGHT_PAD: i32 = 14;

/// The height of the footer: a line of one pixel and a row of buttons.
pub const FOOTER_HEIGHT: i32 = 44;

pub const FOOTER_BTN_W: i32 = 40;

pub const FOOTER_BTN_H: i32 = 43;

pub const FOOTER_ICON_SIZE: i32 = 20;

/// The space at the right edge of the footer.
pub const FOOTER_PAD_X: i32 = 6;

/// The number of buttons in the footer.
pub const ITEM_COUNT: i32 = 5;

/// The colours of the close button under the pointer.
pub const CLOSE_HOT_BG: u32 = 0x001C2BC4;

pub const CLOSE_HOT_TEXT: u32 = 0x00FFFFFF;

// ---------------------------------------------------------------------
// The buttons of the footer.
// ---------------------------------------------------------------------
/// What a button of the footer does.
#[derive(Clone, Copy, Debug, PartialEq, Eq, Structural)]
pub enum FooterAction {
    ThemeToggle,
    ClearHistory,
    Settings,
    About,
    Quit,
}

/// The left edge of the first button.
pub open spec fn first_button_left(client_w: int) -> int {
    client_w - FOOTER_PAD_X - ITEM_COUNT * FOOTER_BTN_W
}

/// The left edge of the first button.
pub fn buttons_left(client_w: i32) -> (r: i64)
    ensures
        r == first_button_left(client_w as int),
{
    client_w as i64 - FOOTER_PAD_X as i64 - ITEM_COUNT as i64 * FOOTER_BTN_W as i64
}

/// The rectangle of button `i`.
pub open spec fn button_area(client_w: int, client_h: int, i: int) -> Rect {
    let left = first_button_left(client_w) + i * FOOTER_BTN_W;
    let top = client_h - FOOTER_HEIGHT + 1;
    Rect {
        left: left as i64,
        top: top as i64,
        right: (left + FOOTER_BTN_W) as i64,
        bottom: (top + FOOTER_BTN_H) as i64,
    }
}

/// The rectangle of button `i`.
pub fn button_rect(client_w: i32, client_h: i32, i: i32) -> (r: Rect)
    requires
        0 <= i < ITEM_COUNT,
    ensures
        r == button_area(client_w as int, client_h as int, i as int),
{
    let left: i64 = buttons_left(client_w) + i as i64 * FOOTER_BTN_W as i64;
    let top: i64 = client_h as i64 - FOOTER_HEIGHT as i64 + 1;
    Rect { left, top, right: left + FOOTER_BTN_W as i64, bottom: top + FOOTER_BTN_H as i64 }
}

/// The button at a point of the window, -1 where there is none.
pub open spec fn button_at(client_w: int, client_h: int, x: int, y: int) -> int {
    let line = client_h - FOOTER_HEIGHT;
    let left = first_button_left(client_w);
    if y <= line || y >= line + 1 + FOOTER_BTN_H || x < left || x >= left + ITEM_COUNT
        * FOOTER_BTN_W {
        -1
    } else {
        (x - left) / FOOTER_BTN_W as int
    }
}

/// The button at a point of the window, -1 where there is none.
pub fn hit_test(client_w: i32, client_h: i32, x: i32, y: i32) -> (r: i32)
    ensures
        r == button_at(client_w as int, client_h as int, x as int, y as int),
        -1 <= r < ITEM_COUNT,
{
    let line: i64 = client_h as i64 - FOOTER_HEIGHT as i64;
    if y as i64 <= line || y as i64 >= line + 1 + FOOTER_BTN_H as i64 {
        return -1;
    }
    let left: i64 = buttons_left(client_w);
    if (x as i64) < left || x as i64 >= left + ITEM_COUNT as i64 * FOOTER_BTN_W as i64 {
        return -1;
    }
    ((x as i64 - left) / FOOTER_BTN_W as i64) as i32
}

/// A point is on a button exactly where that button is drawn.
pub proof fn law_hit_test_matches_buttons(client_w: int, client_h: int, x: int, y: int, i: int)
    requires
        i32::MIN <= client_w <= i32::MAX,
        i32::MIN <= client_h <= i32::MAX,
        0 <= i < ITEM_COUNT,
    ensures
        button_at(client_w, client_h, x, y) == i <==> button_area(client_w, client_h, i).holds(
            x,
            y,
        ),
{
}

/// What button `i` does.
pub open spec fn action_of(i: int) -> Option<FooterAction> {
    if i == 0 {
        Some(FooterAction::ThemeToggle)
    } else if i == 1 {
        Some(FooterAction::ClearHistory)
    } else if i == 2 {
        Some(FooterAction::Settings)
    } else if i == 3 {
        Some(FooterAction::About)
    } else if i == 4 {
        Some(FooterAction::Quit)
    } else {
        None
    }
}

/// What a click at a point of the window does.
pub fn action_at(client_w: i32, client_h: i32, x: i32, y: i32) -> (r: Option<FooterAction>)
    ensures
        r == action_of(button_at(client_w as int, client_h as int, x as int, y as int)),
{
    let i: i32 = hit_test(client_w, client_h, x, y);
    if i == 0 {
        Some(FooterAction::ThemeToggle)
    } else if i == 1 {
        Some(FooterAction::ClearHistory)
    } else if i == 2 {
        Some(FooterAction::Settings)
    } else if i == 3 {
        Some(FooterAction::About)
    } else if i == 4 {
        Some(FooterAction::Quit)
    } else {
        None
    }
}

/// The colour of the icon of button `i`.
pub open spec fn button_color(i: int, pal: Palette) -> u32 {
    if i == 0 {
        pal.accent
    } else if i == 1 {
        pal.tag_rich
    } else if i == 2 {
        pal.subtext
    } else if i == 3 {
        pal.tag_code
    } else if i == 4 {
        pal.tag_file
    } else {
        pal.text
    }
}

/// The colour of the icon of button `i`.
pub fn icon_color(i: i32, pal: &Palette) -> (r: u32)
    ensures
        r == button_color(i as int, *pal),
{
    if i == 0 {
        pal.accent
    } else if i == 1 {
        pal.tag_rich
    } else if i == 2 {
        pal.subtext
    } else if i == 3 {
        pal.tag_code
    } else if i == 4 {
        pal.tag_file
    } else {
        pal.text
    }
}

/// The pictures on the buttons.
#[derive(Clone, Copy, Debug, PartialEq, Eq, Structural)]
pub enum Icon {
    Sun,
    Moon,
    Trash,
    Cog,
    Info,
    Power,
}

/// The picture on button `i`. The first shows the theme that it switches to.
pub open spec fn button_icon(i: int, dark: bool) -> Icon {
    if i == 0 {
        if dark {
            Icon::Sun
        } else {
            Icon::Moon
        }
    } else if i == 1 {
        Icon::Trash
    } else if i == 2 {
        Icon::Cog
    } else if i == 3 {
        Icon::Info
    } else {
        Icon::Power
    }
}

fn icon_of(i: i32, dark: bool) -> (r: Icon)
    ensures
        r == button_icon(i as int, dark),
{
    if i == 0 {
        if dark {
            Icon::Sun
        } else {
            Icon::Moon
        }
    } else if i == 1 {
        Icon::Trash
    } else if i == 2 {
        Icon::Cog
    } else if i == 3 {
        Icon::Info
    } else {
        Icon::Power
    }
}

/// The tip of button `i`. The first names the theme that it switches to.
pub open spec fn button_tip(i: int, dark: bool) -> Seq<char> {
    if i == 0 {
        theme_tip(dark)
    } else if i == 1 {
        "Clear History"@
    } else if i == 2 {
        "Settings"@
    } else if i == 3 {
        "About"@
    } else if i == 4 {
        "Quit"@
    } else {
        ""@
    }
}

/// The tip of the button that switches the theme.
pub open spec fn theme_tip(dark: bool) -> Seq<char> {
    if dark {
        "Switch to Light Mode"@
    } else {
        "Switch to Dark Mode"@
    }
}

/// The tip of the button that switches the theme.
pub fn theme_toggle_tip(dark: bool) -> (r: &'static str)
    ensures
        r@ == theme_tip(dark),
{
    if dark {
        "Switch to Light Mode"
    } else {
        "Switch to Dark Mode"
    }
}

/// The tip of button `i`.
pub fn tip_for(i: i32, dark: bool) -> (r: &'static str)
    ensures
        r@ == button_tip(i as int, dark),
{
    if i == 0 {
        theme_toggle_tip(dark)
    } else if i == 1 {
        "Clear History"
    } else if i == 2 {
        "Settings"
    } else if i == 3 {
        "About"
    } else if i == 4 {
        "Quit"
    } else {
        ""
    }
}

/// A button without the strip at its bottom that resizes the window: there it
/// takes no clicks, shows no tip and is not highlighted.
pub open spec fn above_resize_edge(b: Rect) -> Rect {
    Rect { bottom: (b.bottom - RESIZE_MARGIN) as i64, ..b }
}

/// A button without the strip at its bottom that resizes the window.
pub fn sel_rect_above_resize(b: &Rect) -> (r: Rect)
    requires
        b.bottom >= i64::MIN + RESIZE_MARGIN,
    ensures
        r == above_resize_edge(*b),
{
    Rect { left: b.left, top: b.top, right: b.right, bottom: b.bottom - RESIZE_MARGIN as i64 }
}

/// The rectangles in which the tips of the buttons are shown.
pub fn tooltip_rects(client_w: i32, client_h: i32) -> (r: Vec<Rect>)
    ensures
        r@.len() == ITEM_COUNT,
        forall|i: int|
            0 <= i < ITEM_COUNT ==> #[trigger] r@[i] == above_resize_edge(
                button_area(client_w as int, client_h as int, i),
            ),
{
    let mut out: Vec<Rect> = Vec::new();
    let mut i: i32 = 0;
    while i < ITEM_COUNT
        invariant
            0 <= i <= ITEM_COUNT,
            out@.len() == i,
            forall|k: int|
                0 <= k < i ==> #[trigger] out@[k] == above_resize_edge(
                    button_area(client_w as int, client_h as int, k),
                ),
        decreases ITEM_COUNT - i,
    {
        let b = button_rect(client_w, client_h, i);
        out.push(sel_rect_above_resize(&b));
        i += 1;
    }
    out
}

/// How a button is painted.
#[derive(Clone, Copy, Debug, PartialEq, Eq, Structural)]
pub struct ButtonPlan {
    /// The part to highlight, under the pointer.
    pub highlight: Option<Rect>,
    /// The centre of the icon.
    pub cx: i64,
    pub cy: i64,
    pub icon: Icon,
    pub color: u32,
}

/// How button `i` is painted, where button `hot` is under the pointer. The
/// icon is centred above the strip that resizes the window.
pub open spec fn button_plan(
    client_w: int,
    client_h: int,
    i: int,
    hot: int,
    dark: bool,
    pal: Palette,
) -> ButtonPlan {
    let b = button_area(client_w, client_h, i);
    ButtonPlan {
        highlight: if hot == i {
            Some(above_resize_edge(b))
        } else {
            None
        },
        cx: (b.left + FOOTER_BTN_W / 2) as i64,
        cy: (b.top + (FOOTER_BTN_H - RESIZE_MARGIN - FOOTER_ICON_SIZE) / 2 + FOOTER_ICON_SIZE
            / 2) as i64,
        icon: button_icon(i, dark),
        color: button_color(i, pal),
    }
}

/// The whole footer, and the line on top of it.
pub open spec fn footer_bounds(client_w: int, client_h: int) -> Rect {
    Rect {
        left: 0,
        top: (client_h - FOOTER_HEIGHT) as i64,
        right: client_w as i64,
        bottom: client_h as i64,
    }
}

/// The whole footer.
pub fn footer_rect(client_w: i32, client_h: i32) -> (r: Rect)
    ensures
        r == footer_bounds(client_w as int, client_h as int),
{
    Rect {
        left: 0,
        top: client_h as i64 - FOOTER_HEIGHT as i64,
        right: client_w as i64,
        bottom: client_h as i64,
    }
}

/// How the buttons of the footer are painted.
pub fn plan_footer(client_w: i32, client_h: i32, hot: i32, dark: bool, pal: &Palette) -> (r: Vec<
    ButtonPlan,
>)
    ensures
        r@.len() == ITEM_COUNT,
        forall|i: int|
            0 <= i < ITEM_COUNT ==> #[trigger] r@[i] == button_plan(
                client_w as int,
                client_h as int,
                i,
                hot as int,
                dark,
                *pal,
            ),
{
    let mut out: Vec<ButtonPlan> = Vec::new();
    let mut i: i32 = 0;
    while i < ITEM_COUNT
        invariant
            0 <= i <= ITEM_COUNT,
            out@.len() == i,
            forall|k: int|
                0 <= k < i ==> #[trigger] out@[k] == button_plan(
                    client_w as int,
                    client_h as int,
                    k,
                    hot as int,
                    dark,
                    *pal,
                ),
        decreases ITEM_COUNT - i,
    {
        let b = button_rect(client_w, client_h, i);
        let highlight: Option<Rect> = if hot == i {
            Some(sel_rect_above_resize(&b))
        } else {
            None
        };
        out.push(
            ButtonPlan {
                highlight,
                cx: b.left + (FOOTER_BTN_W / 2) as i64,
                cy: b.top + ((FOOTER_BTN_H - RESIZE_MARGIN - FOOTER_ICON_SIZE) / 2) as i64 + (
                FOOTER_ICON_SIZE / 2) as i64,
                icon: icon_of(i, dark),
                color: icon_color(i, pal),
            },
        );
        i += 1;
    }
    out
}

// ---------------------------------------------------------------------
// The title bar.
// ---------------------------------------------------------------------
/// Where a control goes.
#[derive(Clone, Copy, Debug, PartialEq, Eq, Structural)]
pub struct Place {
    pub x: i64,
    pub y: i64,
    pub w: i64,
    pub h: i64,
}

/// `n`, zero where it is negative.
pub open spec fn at_least_zero(n: int) -> int {
    if n < 0 {
        0
    } else {
        n
    }
}

fn not_negative(n: i64) -> (r: i64)
    ensures
        r == at_least_zero(n as int),
{
    if n < 0 {
        0
    } else {
        n
    }
}

/// Where the close button and the title go: the button in the top right
/// corner, the title in front of it.
pub fn layout_titlebar(client_w: i32) -> (r: (Place, Place))
    ensures
        r.0 == close_place(client_w as int),
        r.1 == title_place(client_w as int),
{
    let w: i64 = client_w as i64;
    (
        Place { x: w - CLOSE_BTN_W as i64, y: 0, w: CLOSE_BTN_W as i64, h: CLOSE_BTN_H as i64 },
        Place {
            x: TITLE_PAD_X as i64,
            y: 0,
            w: not_negative(w - CLOSE_BTN_W as i64 - TITLE_PAD_X as i64),
            h: TITLEBAR_HEIGHT as i64,
        },
    )
}

/// The title bar of a window with the given client area.
pub open spec fn title_bounds(client: Rect) -> Rect {
    Rect { bottom: (client.top + TITLEBAR_HEIGHT) as i64, ..client }
}

/// The strip of the title bar.
pub fn titlebar_rect(client: &Rect) -> (r: Rect)
    requires
        client.small(),
    ensures
        r == (Rect { bottom: (client.top + TITLEBAR_HEIGHT) as i64, ..*client }),
        r == title_bounds(*client),
{
    Rect {
        left: client.left,
        top: client.top,
        right: client.right,
        bottom: client.top + TITLEBAR_HEIGHT as i64,
    }
}

/// One channel of a darker colour: twelve percent less, rounded down.
pub open spec fn darker(channel: int) -> int {
    channel * 88 / 100
}

/// A colour with each channel darkened.
pub open spec fn darkened(c: u32) -> u32 {
    (darker(c as int / 0x10000 % 0x100) * 0x10000 + darker(c as int / 0x100 % 0x100) * 0x100
        + darker(c as int % 0x100)) as u32
}

/// A colour with each channel darkened.
pub fn darken(c: u32) -> (r: u32)
    ensures
        r == darkened(c),
{
    let red: u32 = c % 0x100 * 88 / 100;
    let green: u32 = c / 0x100 % 0x100 * 88 / 100;
    let blue: u32 = c / 0x10000 % 0x100 * 88 / 100;
    blue * 0x10000 + green * 0x100 + red
}

/// The fill and the stroke of the close button.
pub open spec fn close_colors(hot: bool, pressed: bool, pal: Palette) -> (u32, u32) {
    if hot && pressed {
        (darkened(CLOSE_HOT_BG), CLOSE_HOT_TEXT)
    } else if hot {
        (CLOSE_HOT_BG, CLOSE_HOT_TEXT)
    } else {
        (pal.bg, pal.text)
    }
}

/// The fill and the stroke of the close button.
pub fn close_button_colors(hot: bool, pressed: bool, pal: &Palette) -> (r: (u32, u32))
    ensures
        r == close_colors(hot, pressed, *pal),
{
    if hot && pressed {
        (darken(CLOSE_HOT_BG), CLOSE_HOT_TEXT)
    } else if hot {
        (CLOSE_HOT_BG, CLOSE_HOT_TEXT)
    } else {
        (pal.bg, pal.text)
    }
}

/// Whether the state of a control says that it is pressed.
pub open spec fn says_pressed(item_state: u32) -> bool {
    item_state % 2 == 1
}

/// Whether a button is held down, by the state that the system reports.
pub fn is_pressed(item_state: u32) -> (r: bool)
    ensures
        r == (item_state % 2 == 1),
        r == says_pressed(item_state),
{
    item_state % 2 == 1
}

/// What happens to the close button.
#[derive(Clone, Copy, Debug, PartialEq, Eq, Structural)]
pub enum HoverEvent {
    Move,
    Leave,
}

/// Whether the mouse is over a button after `event`, whether it is to be
/// followed from now on, and whether the button is to be painted anew.
pub open spec fn hovered(hot: bool, event: HoverEvent) -> (bool, bool, bool) {
    match event {
        HoverEvent::Move => (true, !hot, !hot),
        HoverEvent::Leave => (false, false, true),
    }
}

/// The state of the close button after an event, whether leaving it has to be
/// watched for from now on, and whether it has to be painted anew.
pub fn hover_step(hot: bool, event: HoverEvent) -> (r: (bool, bool, bool))
    ensures
        event == HoverEvent::Move ==> r == (true, !hot, !hot),
        event == HoverEvent::Leave ==> r == (false, false, true),
        r == hovered(hot, event),
{
    match event {
        HoverEvent::Move => (true, !hot, !hot),
        HoverEvent::Leave => (false, false, true),
    }
}

/// A straight stroke; its end point is not painted.
#[derive(Clone, Copy, Debug, PartialEq, Eq, Structural)]
pub struct Line {
    pub x1: i64,
    pub y1: i64,
    pub x2: i64,
    pub y2: i64,
}

/// The line from one point to another.
pub open spec fn line(x1: int, y1: int, x2: int, y2: int) -> Line {
    Line { x1: x1 as i64, y1: y1 as i64, x2: x2 as i64, y2: y2 as i64 }
}

/// The two strokes of the cross on the close button.
pub open spec fn cross_of(item: Rect) -> (Line, Line) {
    let cx = crate::geometry::half(item.left + item.right);
    let cy = crate::geometry::half(item.top + item.bottom);
    (line(cx - 5, cy - 5, cx + 6, cy + 6), line(cx + 5, cy - 5, cx - 6, cy + 6))
}

/// The two strokes of the cross on the close button.
pub fn close_cross(item: &Rect) -> (r: (Line, Line))
    requires
        item.small(),
    ensures
        ({
            let cx = crate::geometry::half(item.left + item.right);
            let cy = crate::geometry::half(item.top + item.bottom);
            &&& r.0 == line(cx - 5, cy - 5, cx + 6, cy + 6)
            &&& r.1 == line(cx + 5, cy - 5, cx - 6, cy + 6)
        }),
        r == cross_of(*item),
{
    let cx: i64 = crate::geometry::center(item.left, -item.right);
    let cy: i64 = crate::geometry::center(item.top, -item.bottom);
    (
        Line { x1: cx - 5, y1: cy - 5, x2: cx + 6, y2: cy + 6 },
        Line { x1: cx + 5, y1: cy - 5, x2: cx - 6, y2: cy + 6 },
    )
}

// ---------------------------------------------------------------------
// The search box.
// ---------------------------------------------------------------------
/// The surface behind the search box and the magnifying glass on it.
#[derive(Clone, Copy, Debug, PartialEq, Eq, Structural)]
pub struct SearchChrome {
    pub surface: Rect,
    /// The rectangle around the glass.
    pub glass: Rect,
    pub handle: Line,
}

/// The surface of the search box in a window.
pub open spec fn search_surface(client: Rect) -> Rect {
    let top = client.top + TITLEBAR_HEIGHT + SEARCH_TOP_GAP;
    Rect {
        left: (client.left + SEARCH_INSET) as i64,
        top: top as i64,
        right: (client.right - SEARCH_INSET) as i64,
        bottom: (top + SEARCH_HEIGHT) as i64,
    }
}

/// The search field as it is drawn; `None` where it is too narrow to be.
pub open spec fn search_parts(client: Rect) -> Option<SearchChrome> {
    let s = search_surface(client);
    let cx = s.left + SEARCH_ICON_LEFT_PAD + SEARCH_ICON_SIZE / 2;
    let cy = s.top + SEARCH_HEIGHT / 2;
    if s.right > s.left + 2 * SEARCH_RADIUS {
        Some(
            SearchChrome {
                surface: s,
                glass: Rect {
                    left: (cx - 7) as i64,
                    top: (cy - 7) as i64,
                    right: (cx + 7) as i64,
                    bottom: (cy + 7) as i64,
                },
                handle: line(cx + 4, cy + 4, cx + 10, cy + 10),
            },
        )
    } else {
        None
    }
}

/// The surface behind the search box and the magnifying glass on it; `None`
/// where the window is too narrow for them.
pub fn search_chrome(client: &Rect) -> (r: Option<SearchChrome>)
    requires
        client.small(),
    ensures
        ({
            let s = search_surface(*client);
            let cx = s.left + SEARCH_ICON_LEFT_PAD + SEARCH_ICON_SIZE / 2;
            let cy = s.top + SEARCH_HEIGHT / 2;
            &&& r is Some == (s.right > s.left + 2 * SEARCH_RADIUS)
            &&& r matches Some(c) ==> {
                &&& c.surface == s
                &&& c.glass == (Rect {
                    left: (cx - 7) as i64,
                    top: (cy - 7) as i64,
                    right: (cx + 7) as i64,
                    bottom: (cy + 7) as i64,
                })
                &&& c.handle == line(cx + 4, cy + 4, cx + 10, cy + 10)
            }
        }),
        r == search_parts(*client),
{
    let top: i64 = client.top + TITLEBAR_HEIGHT as i64 + SEARCH_TOP_GAP as i64;
    let s = Rect {
        left: client.left + SEARCH_INSET as i64,
        top,
        right: client.right - SEARCH_INSET as i64,
        bottom: top + SEARCH_HEIGHT as i64,
    };
    if s.right <= s.left + 2 * SEARCH_RADIUS as i64 {
        return None;
    }
    let cx: i64 = s.left + SEARCH_ICON_LEFT_PAD as i64 + (SEARCH_ICON_SIZE / 2) as i64;
    let cy: i64 = s.top + (SEARCH_HEIGHT / 2) as i64;
    let r: i64 = (SEARCH_ICON_SIZE / 2) as i64;
    let start: i64 = r * 7 / 10;
    Some(
        SearchChrome {
            surface: s,
            glass: Rect { left: cx - r, top: cy - r, right: cx + r, bottom: cy + r },
            handle: Line {
                x1: cx + start,
                y1: cy + start,
                x2: cx + start + r - 1,
                y2: cy + start + r - 1,
            },
        },
    )
}

// ---------------------------------------------------------------------
// The whole window.
// ---------------------------------------------------------------------
/// Where the controls of the popup go.
#[derive(Clone, Copy, Debug, PartialEq, Eq, Structural)]
pub struct PopupLayout {
    pub close: Place,
    pub title: Place,
    pub edit: Place,
    pub list: Place,
}

/// The left edge of the search text: behind the magnifying glass.
pub open spec fn edit_left() -> int {
    SEARCH_INSET + SEARCH_ICON_LEFT_PAD + SEARCH_ICON_SIZE + SEARCH_ICON_RIGHT_GAP
}

/// The top of the list: below the search box.
pub open spec fn list_top() -> int {
    TITLEBAR_HEIGHT + SEARCH_TOP_GAP + SEARCH_HEIGHT + SEARCH_BOTTOM_GAP
}

/// Where the search text goes.
pub open spec fn edit_place(w: int) -> Place {
    Place {
        x: edit_left() as i64,
        y: (TITLEBAR_HEIGHT + SEARCH_TOP_GAP + SEARCH_EDIT_VERT_INSET) as i64,
        w: at_least_zero(w - SEARCH_INSET - SEARCH_EDIT_RIGHT_PAD - edit_left()) as i64,
        h: (SEARCH_HEIGHT - 2 * SEARCH_EDIT_VERT_INSET) as i64,
    }
}

/// Where the list goes: everything between the search box and the footer.
pub open spec fn list_place(w: int, h: int) -> Place {
    Place {
        x: 0,
        y: list_top() as i64,
        w: w as i64,
        h: at_least_zero(h - list_top() - FOOTER_HEIGHT) as i64,
    }
}

/// Where the close button goes: into the top right corner.
pub open spec fn close_place(w: int) -> Place {
    Place {
        x: (w - CLOSE_BTN_W) as i64,
        y: 0,
        w: CLOSE_BTN_W as i64,
        h: CLOSE_BTN_H as i64,
    }
}

/// Where the title goes: in front of the close button.
pub open spec fn title_place(w: int) -> Place {
    Place {
        x: TITLE_PAD_X as i64,
        y: 0,
        w: at_least_zero(w - CLOSE_BTN_W - TITLE_PAD_X) as i64,
        h: TITLEBAR_HEIGHT as i64,
    }
}

/// Where the controls of the popup go, in a window of the given size.
pub open spec fn popup_layout(w: int, h: int) -> PopupLayout {
    PopupLayout {
        close: close_place(w),
        title: title_place(w),
        edit: edit_place(w),
        list: list_place(w, h),
    }
}

/// Where the controls of the popup go, in a window of the given size.
pub fn layout_popup(w: i32, h: i32) -> (r: PopupLayout)
    ensures
        r == popup_layout(w as int, h as int),
{
    let (close, title) = layout_titlebar(w);
    let left: i64 = (SEARCH_INSET + SEARCH_ICON_LEFT_PAD + SEARCH_ICON_SIZE
        + SEARCH_ICON_RIGHT_GAP) as i64;
    let top: i64 = (TITLEBAR_HEIGHT + SEARCH_TOP_GAP + SEARCH_HEIGHT + SEARCH_BOTTOM_GAP) as i64;
    PopupLayout {
        close,
        title,
        edit: Place {
            x: left,
            y: (TITLEBAR_HEIGHT + SEARCH_TOP_GAP + SEARCH_EDIT_VERT_INSET) as i64,
            w: not_negative(
                w as i64 - SEARCH_INSET as i64 - SEARCH_EDIT_RIGHT_PAD as i64 - left,
            ),
            h: (SEARCH_HEIGHT - 2 * SEARCH_EDIT_VERT_INSET) as i64,
        },
        list: Place {
            x: 0,
            y: top,
            w: w as i64,
            h: not_negative(h as i64 - top - FOOTER_HEIGHT as i64),
        },
    }
}

/// In a window of at least the smallest size, the list ends where the footer
/// begins, the search box is above it, and nothing sticks out.
pub proof fn law_layout_fits(w: int, h: int)
    requires
        crate::settings::POPUP_MIN_W <= w <= i32::MAX,
        crate::settings::POPUP_MIN_H <= h <= i32::MAX,
    ensures
        ({
            let list = list_place(w, h);
            let edit = edit_place(w);
            &&& list.y + list.h == footer_bounds(w, h).top
            &&& edit.y + edit.h <= list.y
            &&& edit.w > 0
            &&& edit.x + edit.w <= w
            &&& first_button_left(w) >= 0
        }),
{
}

/// The parts of a window, by the numbers that the system gives them.
pub const HTCLIENT: i32 = 1;

pub const HTCAPTION: i32 = 2;

pub const HTLEFT: i32 = 10;

pub const HTRIGHT: i32 = 11;

pub const HTTOP: i32 = 12;

pub const HTTOPLEFT: i32 = 13;

pub const HTTOPRIGHT: i32 = 14;

pub const HTBOTTOM: i32 = 15;

pub const HTBOTTOMLEFT: i32 = 16;

pub const HTBOTTOMRIGHT: i32 = 17;

/// The part of the window `wr` at a point of the screen: edges and corners
/// resize, the rest of the title bar drags.
pub open spec fn window_part(wr: Rect, x: int, y: int) -> i32 {
    let m = RESIZE_MARGIN;
    let left = wr.left <= x < wr.left + m;
    let right = wr.right - m <= x < wr.right;
    let top = wr.top <= y < wr.top + m;
    let bottom = wr.bottom - m <= y < wr.bottom;
    if top && left {
        HTTOPLEFT
    } else if top && right {
        HTTOPRIGHT
    } else if bottom && left {
        HTBOTTOMLEFT
    } else if bottom && right {
        HTBOTTOMRIGHT
    } else if top {
        HTTOP
    } else if bottom {
        HTBOTTOM
    } else if left {
        HTLEFT
    } else if right {
        HTRIGHT
    } else if y - wr.top < TITLEBAR_HEIGHT {
        HTCAPTION
    } else {
        HTCLIENT
    }
}

/// The part of the window `wr` at a point of the screen.
pub fn hit_window_part(wr: &Rect, x: i32, y: i32) -> (r: i32)
    requires
        wr.small(),
    ensures
        r == window_part(*wr, x as int, y as int),
{
    let m: i64 = RESIZE_MARGIN as i64;
    let px: i64 = x as i64;
    let py: i64 = y as i64;
    let left = wr.left <= px && px < wr.left + m;
    let right = wr.right - m <= px && px < wr.right;
    let top = wr.top <= py && py < wr.top + m;
    let bottom = wr.bottom - m <= py && py < wr.bottom;
    if top && left {
        HTTOPLEFT
    } else if top && right {
        HTTOPRIGHT
    } else if bottom && left {
        HTBOTTOMLEFT
    } else if bottom && right {
        HTBOTTOMRIGHT
    } else if top {
        HTTOP
    } else if bottom {
        HTBOTTOM
    } else if left {
        HTLEFT
    } else if right {
        HTRIGHT
    } else if py - wr.top < TITLEBAR_HEIGHT as i64 {
        HTCAPTION
    } else {
        HTCLIENT
    }
}

/// Where something of the given length starts near `at` within a range: it is
/// moved back to fit at the end, and starts with the range where it is longer.
pub open spec fn fit_in(at: int, length: int, lo: int, hi: int) -> int {
    let back = if at + length > hi {
        hi - length
    } else {
        at
    };
    if back < lo {
        lo
    } else {
        back
    }
}

fn fit(at: i64, length: i64, lo: i64, hi: i64) -> (r: i64)
    requires
        -0x1_0000_0000 <= at <= 0x1_0000_0000,
        -0x1_0000_0000 <= length <= 0x1_0000_0000,
        -0x1_0000_0000 <= lo <= 0x1_0000_0000,
        -0x1_0000_0000 <= hi <= 0x1_0000_0000,
    ensures
        r == fit_in(at as int, length as int, lo as int, hi as int),
{
    let back: i64 = if at + length > hi {
        hi - length
    } else {
        at
    };
    if back < lo {
        lo
    } else {
        back
    }
}

/// The work area of the screen, where it is known; a common screen where it is
/// not.
pub open spec fn work_area(work: Option<Rect>) -> Rect {
    match work {
        Some(r) => r,
        None => Rect { left: 0, top: 0, right: 1920, bottom: 1080 },
    }
}

/// Where the popup opens: at the pointer, moved to stay in the work area of
/// the screen.
pub fn popup_position(x: i32, y: i32, w: i32, h: i32, work: &Option<Rect>) -> (r: (i64, i64))
    requires
        work_area(*work).small(),
    ensures
        r.0 == fit_in(
            x as int,
            w as int,
            work_area(*work).left as int,
            work_area(*work).right as int,
        ),
        r.1 == fit_in(
            y as int,
            h as int,
            work_area(*work).top as int,
            work_area(*work).bottom as int,
        ),
{
    let work: Rect = match work {
        Some(r) => *r,
        None => Rect { left: 0, top: 0, right: 1920, bottom: 1080 },
    };
    (fit(x as i64, w as i64, work.left, work.right), fit(y as i64, h as i64, work.top, work.bottom))
}

/// A popup that fits into the work area opens inside of it, and at the pointer
/// where it fits there.
pub proof fn law_popup_stays_on_screen(at: int, length: int, lo: int, hi: int)
    requires
        0 <= length <= hi - lo,
    ensures
        lo <= fit_in(at, length, lo, hi),
        fit_in(at, length, lo, hi) + length <= hi,
        lo <= at && at + length <= hi ==> fit_in(at, length, lo, hi) == at,
{
}

// ---------------------------------------------------------------------
// The window in pixels.
// ---------------------------------------------------------------------
/// The footer is the last 44 pixels of the window; its five buttons are 40 wide
/// and stand side by side, 6 from the right edge, one below the line that parts
/// the footer from the list.
pub proof fn law_footer_pixels(w: int, h: int, i: int)
    requires
        i32::MIN <= w <= i32::MAX,
        i32::MIN <= h <= i32::MAX,
        0 <= i < 5,
    ensures
        ITEM_COUNT == 5,
        footer_bounds(w, h).left == 0 && footer_bounds(w, h).right == w,
        footer_bounds(w, h).bottom == h && footer_bounds(w, h).top == h - 44,
        button_area(w, h, i).left == w - 206 + 40 * i,
        button_area(w, h, i).right == w - 166 + 40 * i,
        button_area(w, h, i).top == h - 43,
        button_area(w, h, i).bottom == h,
        first_button_left(w) == w - 206,
        button_area(w, h, 4).right == w - 6,
{
}

/// No button is where no button is drawn.
pub proof fn law_no_button(w: int, h: int, x: int, y: int)
    ensures
        y <= h - 44 || y >= h || x < w - 206 || x >= w - 6 ==> button_at(w, h, x, y) == -1,
        h - 44 < y < h && w - 206 <= x < w - 6 ==> 0 <= button_at(w, h, x, y) < 5,
{
}

/// What the buttons do, from the left: switch the theme, clear the history,
/// open the settings, tell about the program, quit. Each has its own icon,
/// colour and hint; those of the first show the theme that it switches to.
pub proof fn law_footer_buttons(i: int, dark: bool, pal: Palette)
    ensures
        action_of(0) == Some(FooterAction::ThemeToggle) && button_color(0, pal) == pal.accent,
        button_icon(0, true) == Icon::Sun && button_tip(0, true) == "Switch to Light Mode"@,
        button_icon(0, false) == Icon::Moon && button_tip(0, false) == "Switch to Dark Mode"@,
        action_of(1) == Some(FooterAction::ClearHistory) && button_color(1, pal) == pal.tag_rich,
        button_icon(1, dark) == Icon::Trash && button_tip(1, dark) == "Clear History"@,
        action_of(2) == Some(FooterAction::Settings) && button_color(2, pal) == pal.subtext,
        button_icon(2, dark) == Icon::Cog && button_tip(2, dark) == "Settings"@,
        action_of(3) == Some(FooterAction::About) && button_color(3, pal) == pal.tag_code,
        button_icon(3, dark) == Icon::Info && button_tip(3, dark) == "About"@,
        action_of(4) == Some(FooterAction::Quit) && button_color(4, pal) == pal.tag_file,
        button_icon(4, dark) == Icon::Power && button_tip(4, dark) == "Quit"@,
        i < 0 || i > 4 ==> action_of(i) is None && button_tip(i, dark) == ""@ && button_color(i, pal)
            == pal.text,
{
}

/// A button is highlighted where the mouse is over it, down to six pixels above
/// its lower edge; its icon is in the middle of that.
pub proof fn law_button_pixels(w: int, h: int, i: int, hot: int, dark: bool, pal: Palette)
    requires
        i32::MIN <= w <= i32::MAX,
        i32::MIN <= h <= i32::MAX,
        0 <= i < 5,
    ensures
        ({
            let plan = button_plan(w, h, i, hot, dark, pal);
            &&& hot != i ==> plan.highlight is None
            &&& hot == i ==> (plan.highlight matches Some(r) && r.left == w - 206 + 40 * i
                && r.right == w - 166 + 40 * i && r.top == h - 43 && r.bottom == h - 6)
            &&& plan.cx == w - 186 + 40 * i
            &&& plan.cy == h - 25
            &&& plan.icon == button_icon(i, dark) && plan.color == button_color(i, pal)
        }),
{
}

/// The title bar in pixels: the close button at the right is 46 by 40, the title
/// takes the rest but for 12 at the left.
pub proof fn law_title_pixels(w: int)
    requires
        i32::MIN <= w <= i32::MAX,
    ensures
        close_place(w) == (Place { x: (w - 46) as i64, y: 0, w: 46, h: 40 }),
        w >= 58 ==> title_place(w) == (Place { x: 12, y: 0, w: (w - 58) as i64, h: 48 }),
        w < 58 ==> title_place(w) == (Place { x: 12, y: 0, w: 0, h: 48 }),
{
}

/// The search field and the list in pixels: the list starts 102 below the top
/// and ends at the footer.
pub proof fn law_field_pixels(w: int, h: int)
    requires
        i32::MIN <= w <= i32::MAX,
        i32::MIN <= h <= i32::MAX,
    ensures
        w >= 74 ==> edit_place(w) == (Place { x: 48, y: 60, w: (w - 74) as i64, h: 28 }),
        w < 74 ==> edit_place(w) == (Place { x: 48, y: 60, w: 0, h: 28 }),
        h >= 146 ==> list_place(w, h) == (Place { x: 0, y: 102, w: w as i64, h: (h - 146) as i64 }),
        h < 146 ==> list_place(w, h) == (Place { x: 0, y: 102, w: w as i64, h: 0 }),
        popup_layout(w, h).close == close_place(w) && popup_layout(w, h).title == title_place(w),
        popup_layout(w, h).edit == edit_place(w) && popup_layout(w, h).list == list_place(w, h),
{
}

/// The surface of the search field: 12 from the sides, 54 to 94 below the top.
pub proof fn law_search_pixels(client: Rect)
    requires
        client.small(),
    ensures
        search_surface(client).left == client.left + 12,
        search_surface(client).right == client.right - 12,
        search_surface(client).top == client.top + 54,
        search_surface(client).bottom == client.top + 94,
        SEARCH_RADIUS == 8,
        SEARCH_ICON_LEFT_PAD == 14,
        SEARCH_ICON_SIZE == 14,
        SEARCH_HEIGHT == 40,
        TITLEBAR_HEIGHT == 48,
{
}

/// Darkening takes each channel to 88 percent of what it was.
pub proof fn law_darkened(r: int, g: int, b: int)
    requires
        0 <= r < 256,
        0 <= g < 256,
        0 <= b < 256,
    ensures
        darkened((r + 256 * g + 65536 * b) as u32) == r * 88 / 100 + 256 * (g * 88 / 100) + 65536
            * (b * 88 / 100),
{
    let c = (r + 256 * g + 65536 * b) as u32;
    assert(c as int % 0x100 == r);
    assert(c as int / 0x100 % 0x100 == g);
    assert(c as int / 0x10000 % 0x100 == b);
}

/// The close button is red under the mouse, darker while it is pressed there,
/// and looks like the rest of the window otherwise.
pub proof fn law_close_colors(pressed: bool, pal: Palette)
    ensures
        close_colors(false, pressed, pal) == (pal.bg, pal.text),
        close_colors(true, false, pal).0 == 196 + 256 * 43 + 65536 * 28,
        close_colors(true, true, pal).0 == darkened(close_colors(true, false, pal).0),
        close_colors(true, pressed, pal).1 == 255 + 256 * 255 + 65536 * 255,
{
}

/// The parts of the window by their numbers: six pixels along each edge and
/// corner resize it, the title bar moves it, and the rest is its content.
pub proof fn law_window_parts(wr: Rect, x: int, y: int)
    requires
        wr.left <= x < wr.right,
        wr.top <= y < wr.bottom,
        wr.right - wr.left >= 12,
        wr.bottom - wr.top >= 12,
    ensures
        ({
            let left = x < wr.left + 6;
            let right = x >= wr.right - 6;
            let top = y < wr.top + 6;
            let bottom = y >= wr.bottom - 6;
            let part = window_part(wr, x, y);
            &&& top && left ==> part == 13
            &&& top && right ==> part == 14
            &&& bottom && left ==> part == 16
            &&& bottom && right ==> part == 17
            &&& top && !left && !right ==> part == 12
            &&& bottom && !left && !right ==> part == 15
            &&& left && !top && !bottom ==> part == 10
            &&& right && !top && !bottom ==> part == 11
            &&& !left && !right && !top && !bottom && y < wr.top + 48 ==> part == 2
            &&& !left && !right && !top && !bottom && y >= wr.top + 48 ==> part == 1
        }),
{
}

/// A popup that is larger than the screen starts at its edge; where the size of
/// the screen is not known it is taken to be 1920 by 1080.
pub proof fn law_popup_place(at: int, length: int, lo: int, hi: int, r: Rect)
    ensures
        length > hi - lo ==> fit_in(at, length, lo, hi) >= lo,
        length > hi - lo && at >= lo ==> fit_in(at, length, lo, hi) == lo,
        at < lo && at + length <= hi ==> fit_in(at, length, lo, hi) == lo,
        at + length > hi && hi - length >= lo ==> fit_in(at, length, lo, hi) + length == hi,
        work_area(Some(r)) == r,
        work_area(None) == (Rect { left: 0, top: 0, right: 1920, bottom: 1080 }),
{
}

/// A line goes from its first point to its second.
pub proof fn law_line(x1: int, y1: int, x2: int, y2: int)
    requires
        i64::MIN <= x1 <= i64::MAX,
        i64::MIN <= y1 <= i64::MAX,
        i64::MIN <= x2 <= i64::MAX,
        i64::MIN <= y2 <= i64::MAX,
    ensures
        line(x1, y1, x2, y2).x1 == x1,
        line(x1, y1, x2, y2).y1 == y1,
        line(x1, y1, x2, y2).x2 == x2,
        line(x1, y1, x2, y2).y2 == y2,
{
}

/// The first move of the mouse onto a button highlights it and follows the
/// mouse, further moves do nothing, and when it leaves the button is painted as
/// before.
pub proof fn law_hover(hot: bool)
    ensures
        hovered(false, HoverEvent::Move) == (true, true, true),
        hovered(true, HoverEvent::Move) == (true, false, false),
        hovered(hot, HoverEvent::Leave) == (false, false, true),
{
}

/// The title bar is as wide as the window and 48 pixels high.
pub proof fn law_title_bounds(client: Rect)
    requires
        client.small(),
    ensures
        title_bounds(client).left == client.left && title_bounds(client).right == client.right,
        title_bounds(client).top == client.top,
        title_bounds(client).bottom - title_bounds(client).top == 48,
{
}

/// The lowest bit of its state says that a control is pressed, whatever the
/// others say.
pub proof fn law_pressed(n: int)
    requires
        0 <= n < 0x8000_0000,
    ensures
        !says_pressed((2 * n) as u32),
        says_pressed((2 * n + 1) as u32),
{
}

/// The cross on the close button: two strokes of the same size that cross in the
/// middle of it.
pub proof fn law_cross(x: int, y: int, w: int, h: int)
    requires
        0 <= x <= 0x4000_0000,
        0 <= y <= 0x4000_0000,
        0 <= w <= 0x2000_0000,
        0 <= h <= 0x2000_0000,
    ensures
        ({
            let item = Rect {
                left: x as i64,
                top: y as i64,
                right: (x + 2 * w) as i64,
                bottom: (y + 2 * h) as i64,
            };
            let (a, b) = cross_of(item);
            &&& a.x1 == x + w - 5 && a.y1 == y + h - 5 && a.x2 == x + w + 6 && a.y2 == y + h + 6
            &&& b.x1 == x + w + 5 && b.y1 == y + h - 5 && b.x2 == x + w - 6 && b.y2 == y + h + 6
        }),
{
}

/// The search field is drawn where it is more than 16 pixels wide: a glass of 14
/// pixels, 26 from the left of the window and centred 74 below its top, and its
/// handle to the lower right of it.
pub proof fn law_search_parts(client: Rect)
    requires
        client.small(),
    ensures
        search_parts(client) is Some == (client.right - client.left > 40),
        search_parts(client) matches Some(c) ==> {
            &&& c.surface == search_surface(client)
            &&& c.glass.left == client.left + 26 && c.glass.right == client.left + 40
            &&& c.glass.top == client.top + 67 && c.glass.bottom == client.top + 81
            &&& c.handle.x1 == client.left + 37 && c.handle.y1 == client.top + 78
            &&& c.handle.x2 == client.left + 43 && c.handle.y2 == client.top + 84
        },
{
}

} // verus!
