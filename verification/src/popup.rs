//! The popup: what each message does to it.
//!
//! `popup_event` reads a window message, `popup_step` decides what is to be
//! done about it. Doing it is left to the caller.

use vstd::prelude::*;

use crate::chrome::{action_at, hit_test, hit_window_part, layout_popup, FooterAction, PopupLayout};
use crate::chrome::{action_of, button_at, popup_layout, window_part};
use crate::geometry::Rect;
use crate::list::{WM_LBUTTONDOWN, WM_PAINT, WM_SIZE};
use crate::message::{high_word, low_word, signed_high, signed_low};
use crate::message::{high_of, low_of, signed_high_of, signed_low_of};
use crate::settings::{sized, Settings};
use crate::settings::{IDM_ABOUT, IDM_CLEAR, IDM_EXIT, IDM_OPEN, IDM_SETTINGS};

verus! {

// ---------------------------------------------------------------------
// Messages.
// ---------------------------------------------------------------------
pub const WM_CREATE: u32 = 0x0001;

pub const WM_DESTROY: u32 = 0x0002;

pub const WM_ACTIVATE: u32 = 0x0006;

pub const WM_CLOSE: u32 = 0x0010;

pub const WM_GETMINMAXINFO: u32 = 0x0024;

pub const WM_DRAWITEM: u32 = 0x002b;

pub const WM_MEASUREITEM: u32 = 0x002c;

pub const WM_NCCALCSIZE: u32 = 0x0083;

pub const WM_NCHITTEST: u32 = 0x0084;

pub const WM_NCPAINT: u32 = 0x0085;

pub const WM_COMMAND: u32 = 0x0111;

pub const WM_CTLCOLOREDIT: u32 = 0x0133;

pub const WM_CTLCOLORLISTBOX: u32 = 0x0134;

pub const WM_CTLCOLORBTN: u32 = 0x0135;

pub const WM_CTLCOLORSTATIC: u32 = 0x0138;

pub const WM_MOUSEMOVE: u32 = 0x0200;

pub const WM_LBUTTONUP: u32 = 0x0202;

pub const WM_RBUTTONUP: u32 = 0x0205;

pub const WM_MOUSELEAVE: u32 = 0x02a3;

pub const WM_HOTKEY: u32 = 0x0312;

pub const WM_CLIPBOARDUPDATE: u32 = 0x031d;

/// The message that the tray icon sends.
pub const WM_APP_TRAY: u32 = 0x8001;

/// The number of the hot key.
pub const HOTKEY_ID: u64 = 1;

/// The numbers of the controls.
pub const EDIT_ID: u32 = 1;

pub const LISTBOX_ID: u32 = 2;

pub const CLOSE_BTN_ID: u32 = 3;

pub const TITLE_LABEL_ID: u32 = 4;

/// The list reports a double click.
pub const LBN_DBLCLK: u32 = 2;

/// The search text has changed.
pub const EN_CHANGE: u32 = 0x0300;

/// What a message means to the popup.
#[derive(Clone, Copy, Debug, PartialEq, Eq, Structural)]
pub enum Event {
    Create,
    /// The tray icon was clicked.
    TrayClick,
    /// The tray icon was clicked with the right button.
    TrayMenu,
    /// Something else happened to the tray icon.
    TrayOther,
    Hotkey { id: u64 },
    ClipboardUpdate,
    /// The popup loses the focus to the window `other`.
    Deactivate { other: u64 },
    Activate,
    Close,
    CalcSize { client: bool },
    NcPaint,
    HitTest { x: i32, y: i32 },
    Paint,
    MinSize,
    Command { code: u32, id: u32 },
    Press { x: i32, y: i32 },
    Move { x: i32, y: i32 },
    Leave,
    /// The search box asks for its colours.
    EditColors,
    /// Another control asks for its colours.
    ControlColors,
    DrawItem,
    MeasureItem,
    Size { w: u32, h: u32 },
    Destroy,
    Other,
}

/// What a message means to the popup.
pub open spec fn popup_event_of(msg: u32, wp: u64, lp: u64) -> Event {
    if msg == WM_CREATE {
        Event::Create
    } else if msg == WM_APP_TRAY {
        if lp % 0x1_0000_0000 == WM_LBUTTONUP {
            Event::TrayClick
        } else if lp % 0x1_0000_0000 == WM_RBUTTONUP {
            Event::TrayMenu
        } else {
            Event::TrayOther
        }
    } else if msg == WM_HOTKEY {
        Event::Hotkey { id: (wp % 0x1_0000_0000) as u64 }
    } else if msg == WM_CLIPBOARDUPDATE {
        Event::ClipboardUpdate
    } else if msg == WM_ACTIVATE {
        if low_of(wp) == 0 {
            Event::Deactivate { other: lp }
        } else {
            Event::Activate
        }
    } else if msg == WM_CLOSE {
        Event::Close
    } else if msg == WM_NCCALCSIZE {
        Event::CalcSize { client: wp != 0 }
    } else if msg == WM_NCPAINT {
        Event::NcPaint
    } else if msg == WM_NCHITTEST {
        Event::HitTest { x: signed_low_of(lp), y: signed_high_of(lp) }
    } else if msg == WM_PAINT {
        Event::Paint
    } else if msg == WM_GETMINMAXINFO {
        Event::MinSize
    } else if msg == WM_COMMAND {
        Event::Command { code: high_of(wp), id: low_of(wp) }
    } else if msg == WM_LBUTTONDOWN {
        Event::Press { x: signed_low_of(lp), y: signed_high_of(lp) }
    } else if msg == WM_MOUSEMOVE {
        Event::Move { x: signed_low_of(lp), y: signed_high_of(lp) }
    } else if msg == WM_MOUSELEAVE {
        Event::Leave
    } else if msg == WM_CTLCOLOREDIT {
        Event::EditColors
    } else if msg == WM_CTLCOLORLISTBOX || msg == WM_CTLCOLORSTATIC || msg == WM_CTLCOLORBTN {
        Event::ControlColors
    } else if msg == WM_DRAWITEM {
        Event::DrawItem
    } else if msg == WM_MEASUREITEM {
        Event::MeasureItem
    } else if msg == WM_SIZE {
        Event::Size { w: low_of(lp), h: high_of(lp) }
    } else if msg == WM_DESTROY {
        Event::Destroy
    } else {
        Event::Other
    }
}

/// What a message means to the popup.
pub fn popup_event(msg: u32, wp: u64, lp: u64) -> (r: Event)
    ensures
        r == popup_event_of(msg, wp, lp),
{
    if msg == WM_CREATE {
        Event::Create
    } else if msg == WM_APP_TRAY {
        let what: u64 = lp % 0x1_0000_0000;
        if what == WM_LBUTTONUP as u64 {
            Event::TrayClick
        } else if what == WM_RBUTTONUP as u64 {
            Event::TrayMenu
        } else {
            Event::TrayOther
        }
    } else if msg == WM_HOTKEY {
        Event::Hotkey { id: wp % 0x1_0000_0000 }
    } else if msg == WM_CLIPBOARDUPDATE {
        Event::ClipboardUpdate
    } else if msg == WM_ACTIVATE {
        if low_word(wp) == 0 {
            Event::Deactivate { other: lp }
        } else {
            Event::Activate
        }
    } else if msg == WM_CLOSE {
        Event::Close
    } else if msg == WM_NCCALCSIZE {
        Event::CalcSize { client: wp != 0 }
    } else if msg == WM_NCPAINT {
        Event::NcPaint
    } else if msg == WM_NCHITTEST {
        Event::HitTest { x: signed_low(lp), y: signed_high(lp) }
    } else if msg == WM_PAINT {
        Event::Paint
    } else if msg == WM_GETMINMAXINFO {
        Event::MinSize
    } else if msg == WM_COMMAND {
        Event::Command { code: high_word(wp), id: low_word(wp) }
    } else if msg == WM_LBUTTONDOWN {
        Event::Press { x: signed_low(lp), y: signed_high(lp) }
    } else if msg == WM_MOUSEMOVE {
        Event::Move { x: signed_low(lp), y: signed_high(lp) }
    } else if msg == WM_MOUSELEAVE {
        Event::Leave
    } else if msg == WM_CTLCOLOREDIT {
        Event::EditColors
    } else if msg == WM_CTLCOLORLISTBOX || msg == WM_CTLCOLORSTATIC || msg == WM_CTLCOLORBTN {
        Event::ControlColors
    } else if msg == WM_DRAWITEM {
        Event::DrawItem
    } else if msg == WM_MEASUREITEM {
        Event::MeasureItem
    } else if msg == WM_SIZE {
        Event::Size { w: low_word(lp), h: high_word(lp) }
    } else if msg == WM_DESTROY {
        Event::Destroy
    } else {
        Event::Other
    }
}

// ---------------------------------------------------------------------
// State, facts, actions.
// ---------------------------------------------------------------------
/// What the popup remembers between messages. Windows are known by number.
#[derive(Clone, Copy, Debug, PartialEq, Eq, Structural)]
pub struct PopupState {
    /// The next change of the clipboard is one of our own.
    pub suppress_next: bool,
    /// The footer button under the pointer, -1 where there is none.
    pub footer_hot: i32,
    /// Whether the system reports when the pointer leaves.
    pub tracking: bool,
    /// The size of the window.
    pub size_w: i32,
    pub size_h: i32,
    /// The window to paste into.
    pub prev_fg: u64,
    pub is_dark: bool,
}

/// What the system says at the time of a message.
#[derive(Clone, Copy, Debug)]
pub struct Facts {
    /// The popup itself.
    pub own: u64,
    pub visible: bool,
    /// The window in front.
    pub foreground: u64,
    /// The owner of the window that takes the focus.
    pub owner_of_other: u64,
    /// The window on the screen, if it is known.
    pub window: Option<Rect>,
    /// The size of its inside, if it is known.
    pub client: Option<(i32, i32)>,
    /// The control to be drawn.
    pub control: u32,
}

/// What is to be done.
#[derive(Clone, Copy, Debug, PartialEq, Eq, Structural)]
pub enum Action {
    /// Create the controls and everything else that lives with the window.
    Build,
    /// Open the popup at the pointer, with an empty search.
    Show,
    /// Remember the size of the popup in the settings.
    FlushSize { w: i32, h: i32 },
    Hide,
    OpenTrayMenu,
    /// Capture the clipboard; where that adds an item, show it.
    Capture,
    /// Paste the selected row.
    Paste,
    /// Search anew.
    Filter,
    ClearHistory,
    ShowSettings,
    ShowAbout,
    /// Switch the theme and remember it.
    SwitchTheme { light: bool },
    /// End the program.
    Quit,
    PaintFrame,
    PaintFooter,
    DrawClose,
    /// Ask to be told when the pointer leaves.
    TrackLeave,
    SetMinSize,
    Place { layout: PopupLayout },
    /// Save the history and let go of everything.
    ShutDown,
    FocusSearch,
    FocusList,
    /// Flip the pin of a row.
    TogglePin { row: i32 },
    /// Select a row.
    Select { row: i32 },
    /// Bring another window to the front.
    BringForward { window: u64 },
    /// Press the keys that paste.
    PressPaste,
}

/// What is answered to a message.
#[derive(Clone, Copy, Debug, PartialEq, Eq, Structural)]
pub enum Reply {
    Value(i64),
    /// The answer of the action `Build`: zero, or -1 where it failed.
    OfBuild,
    /// The colours of the search box.
    EditBrush,
    /// The colours of the other controls.
    WindowBrush,
    /// The answer of the system.
    Default,
}

/// The state once the popup is shown: it will paste into the window that was
/// in front.
pub open spec fn shown(st: PopupState, facts: Facts) -> PopupState {
    if facts.foreground != facts.own {
        PopupState { prev_fg: facts.foreground, ..st }
    } else {
        st
    }
}

/// What hides the popup: its size is remembered first.
pub open spec fn hiding(st: PopupState) -> Seq<Action> {
    seq![Action::FlushSize { w: st.size_w, h: st.size_h }, Action::Hide]
}

/// What shows a hidden popup and hides a visible one.
pub open spec fn toggled(st: PopupState, facts: Facts) -> (PopupState, Seq<Action>, Reply) {
    if facts.visible {
        (st, hiding(st), Reply::Value(0))
    } else {
        (shown(st, facts), seq![Action::Show], Reply::Value(0))
    }
}

/// What a command does.
pub open spec fn on_command(st: PopupState, facts: Facts, code: u32, id: u32) -> (
    PopupState,
    Seq<Action>,
    Reply,
) {
    let done = Reply::Value(0);
    if code == LBN_DBLCLK && id == LISTBOX_ID {
        (st, seq![Action::Paste], done)
    } else if code == EN_CHANGE && id == EDIT_ID {
        (st, seq![Action::Filter], done)
    } else if id == CLOSE_BTN_ID {
        (st, hiding(st), done)
    } else if code != 0 {
        (st, seq![], done)
    } else if id == IDM_OPEN {
        (shown(st, facts), seq![Action::Show], done)
    } else if id == IDM_CLEAR {
        (st, seq![Action::ClearHistory], done)
    } else if id == IDM_SETTINGS {
        (st, seq![Action::ShowSettings], done)
    } else if id == IDM_ABOUT {
        (st, seq![Action::ShowAbout], done)
    } else if id == IDM_EXIT {
        (st, seq![Action::Quit], done)
    } else {
        (st, seq![], done)
    }
}

/// What a press on a footer button does.
pub open spec fn on_footer(st: PopupState, action: Option<FooterAction>) -> (
    PopupState,
    Seq<Action>,
    Reply,
) {
    let done = Reply::Value(0);
    match action {
        Some(FooterAction::ThemeToggle) => (
            PopupState { is_dark: !st.is_dark, ..st },
            seq![Action::SwitchTheme { light: st.is_dark }],
            done,
        ),
        Some(FooterAction::ClearHistory) => (st, seq![Action::ClearHistory], done),
        Some(FooterAction::Settings) => (st, seq![Action::ShowSettings], done),
        Some(FooterAction::About) => (st, seq![Action::ShowAbout], done),
        Some(FooterAction::Quit) => (st, seq![Action::Quit], done),
        None => (st, seq![], done),
    }
}

/// The footer button at a point, where the size of the window is known.
pub open spec fn hot_button(facts: Facts, st: PopupState, x: i32, y: i32) -> i32 {
    match facts.client {
        Some((w, h)) => button_at(w as int, h as int, x as int, y as int) as i32,
        None => st.footer_hot,
    }
}

/// What a movement of the pointer does.
pub open spec fn on_move(st: PopupState, facts: Facts, x: i32, y: i32) -> (
    PopupState,
    Seq<Action>,
    Reply,
) {
    let hot = hot_button(facts, st, x, y);
    let repaint: Seq<Action> = if hot != st.footer_hot {
        seq![Action::PaintFooter]
    } else {
        seq![]
    };
    let track: Seq<Action> = if !st.tracking {
        seq![Action::TrackLeave]
    } else {
        seq![]
    };
    (PopupState { footer_hot: hot, tracking: true, ..st }, repaint + track, Reply::Default)
}

/// The difference of two coordinates, as the 32-bit number that a size is.
pub open spec fn extent(from: i64, to: i64) -> i32 {
    (to - from) as i32
}

/// The state in a window of a new size.
pub open spec fn resized(st: PopupState, facts: Facts) -> PopupState {
    match facts.window {
        Some(r) => PopupState {
            size_w: extent(r.left, r.right),
            size_h: extent(r.top, r.bottom),
            ..st
        },
        None => st,
    }
}

/// The next state, the actions and the answer for an event.
pub open spec fn decided(st: PopupState, event: Event, facts: Facts) -> (
    PopupState,
    Seq<Action>,
    Reply,
) {
    let done = Reply::Value(0);
    match event {
        Event::Create => (st, seq![Action::Build], Reply::OfBuild),
        Event::TrayClick => toggled(st, facts),
        Event::TrayMenu => (st, seq![Action::OpenTrayMenu], done),
        Event::TrayOther => (st, seq![], done),
        Event::Hotkey { id } => if id == HOTKEY_ID {
            toggled(st, facts)
        } else {
            (st, seq![], done)
        },
        Event::ClipboardUpdate => (
            PopupState { suppress_next: false, ..st },
            if st.suppress_next {
                seq![]
            } else {
                seq![Action::Capture]
            },
            done,
        ),
        Event::Deactivate { other } => (
            if other != 0 && other != facts.own && facts.owner_of_other != facts.own {
                PopupState { prev_fg: other, ..st }
            } else {
                st
            },
            seq![],
            done,
        ),
        Event::Activate => (st, seq![], done),
        Event::Close => (st, hiding(st), done),
        Event::CalcSize { client } => (
            st,
            seq![],
            if client {
                done
            } else {
                Reply::Default
            },
        ),
        Event::NcPaint => (st, seq![], done),
        Event::HitTest { x, y } => (
            st,
            seq![],
            match facts.window {
                Some(r) => Reply::Value(window_part(r, x as int, y as int) as i64),
                None => Reply::Default,
            },
        ),
        Event::Paint => (st, seq![Action::PaintFrame], done),
        Event::MinSize => (st, seq![Action::SetMinSize], done),
        Event::Command { code, id } => on_command(st, facts, code, id),
        Event::Press { x, y } => match facts.client {
            Some((w, h)) => on_footer(
                st,
                action_of(button_at(w as int, h as int, x as int, y as int)),
            ),
            None => (st, seq![], done),
        },
        Event::Move { x, y } => on_move(st, facts, x, y),
        Event::Leave => (
            PopupState {
                tracking: false,
                footer_hot: if st.footer_hot >= 0 {
                    -1i32
                } else {
                    st.footer_hot
                },
                ..st
            },
            if st.footer_hot >= 0 {
                seq![Action::PaintFooter]
            } else {
                seq![]
            },
            done,
        ),
        Event::EditColors => (st, seq![], Reply::EditBrush),
        Event::ControlColors => (st, seq![], Reply::WindowBrush),
        Event::DrawItem => (
            st,
            if facts.control == CLOSE_BTN_ID {
                seq![Action::DrawClose]
            } else {
                seq![]
            },
            Reply::Value(1),
        ),
        Event::MeasureItem => (st, seq![], Reply::Value(1)),
        Event::Size { w, h } => (
            resized(st, facts),
            seq![Action::Place { layout: popup_layout(w as int, h as int) }],
            done,
        ),
        Event::Destroy => (st, seq![Action::ShutDown], done),
        Event::Other => (st, seq![], Reply::Default),
    }
}

/// What is to be done about a message.
#[derive(Clone, Debug)]
pub struct Decision {
    pub state: PopupState,
    pub actions: Vec<Action>,
    pub reply: Reply,
}

impl View for Decision {
    type V = (PopupState, Seq<Action>, Reply);

    open spec fn view(&self) -> (PopupState, Seq<Action>, Reply) {
        (self.state, self.actions@, self.reply)
    }
}

fn nothing(state: PopupState, reply: Reply) -> (r: Decision)
    ensures
        r@ == (state, Seq::<Action>::empty(), reply),
{
    let actions: Vec<Action> = Vec::new();
    assert(actions@ =~= Seq::<Action>::empty());
    Decision { state, actions, reply }
}

fn one(state: PopupState, action: Action, reply: Reply) -> (r: Decision)
    ensures
        r@ == (state, seq![action], reply),
{
    let mut actions: Vec<Action> = Vec::new();
    actions.push(action);
    assert(actions@ =~= seq![action]);
    Decision { state, actions, reply }
}

fn hide_actions(st: &PopupState) -> (r: Vec<Action>)
    ensures
        r@ == hiding(*st),
{
    let mut actions: Vec<Action> = Vec::new();
    actions.push(Action::FlushSize { w: st.size_w, h: st.size_h });
    actions.push(Action::Hide);
    assert(actions@ =~= hiding(*st));
    actions
}

fn hide_popup(state: PopupState) -> (r: Decision)
    ensures
        r@ == (state, hiding(state), Reply::Value(0)),
{
    Decision { state, actions: hide_actions(&state), reply: Reply::Value(0) }
}

fn show_popup(st: &PopupState, facts: &Facts) -> (r: Decision)
    ensures
        r@ == (shown(*st, *facts), seq![Action::Show], Reply::Value(0)),
{
    let mut state: PopupState = *st;
    if facts.foreground != facts.own {
        state.prev_fg = facts.foreground;
    }
    one(state, Action::Show, Reply::Value(0))
}

fn toggle_popup(st: &PopupState, facts: &Facts) -> (r: Decision)
    ensures
        r@ == toggled(*st, *facts),
{
    if facts.visible {
        hide_popup(*st)
    } else {
        show_popup(st, facts)
    }
}

fn command(st: &PopupState, facts: &Facts, code: u32, id: u32) -> (r: Decision)
    ensures
        r@ == on_command(*st, *facts, code, id),
{
    let done = Reply::Value(0);
    if code == LBN_DBLCLK && id == LISTBOX_ID {
        one(*st, Action::Paste, done)
    } else if code == EN_CHANGE && id == EDIT_ID {
        one(*st, Action::Filter, done)
    } else if id == CLOSE_BTN_ID {
        hide_popup(*st)
    } else if code != 0 {
        nothing(*st, done)
    } else if id == IDM_OPEN {
        show_popup(st, facts)
    } else if id == IDM_CLEAR {
        one(*st, Action::ClearHistory, done)
    } else if id == IDM_SETTINGS {
        one(*st, Action::ShowSettings, done)
    } else if id == IDM_ABOUT {
        one(*st, Action::ShowAbout, done)
    } else if id == IDM_EXIT {
        one(*st, Action::Quit, done)
    } else {
        nothing(*st, done)
    }
}

fn press(st: &PopupState, action: Option<FooterAction>) -> (r: Decision)
    ensures
        r@ == on_footer(*st, action),
{
    let done = Reply::Value(0);
    match action {
        Some(FooterAction::ThemeToggle) => {
            let mut state: PopupState = *st;
            state.is_dark = !st.is_dark;
            one(state, Action::SwitchTheme { light: st.is_dark }, done)
        },
        Some(FooterAction::ClearHistory) => one(*st, Action::ClearHistory, done),
        Some(FooterAction::Settings) => one(*st, Action::ShowSettings, done),
        Some(FooterAction::About) => one(*st, Action::ShowAbout, done),
        Some(FooterAction::Quit) => one(*st, Action::Quit, done),
        None => nothing(*st, done),
    }
}

fn pointer(st: &PopupState, facts: &Facts, x: i32, y: i32) -> (r: Decision)
    ensures
        r@ == on_move(*st, *facts, x, y),
{
    let hot: i32 = match facts.client {
        Some((w, h)) => hit_test(w, h, x, y),
        None => st.footer_hot,
    };
    let mut state: PopupState = *st;
    let mut actions: Vec<Action> = Vec::new();
    if hot != st.footer_hot {
        actions.push(Action::PaintFooter);
    }
    if !st.tracking {
        actions.push(Action::TrackLeave);
    }
    state.footer_hot = hot;
    state.tracking = true;
    assert(actions@ =~= on_move(*st, *facts, x, y).1);
    Decision { state, actions, reply: Reply::Default }
}

/// Whether the window has the size of a window: its edges are 32-bit
/// coordinates, and so are its width and height.
pub open spec fn sane_window(facts: Facts) -> bool {
    facts.window matches Some(r) ==> {
        &&& r.small()
        &&& i32::MIN <= r.right - r.left <= i32::MAX
        &&& i32::MIN <= r.bottom - r.top <= i32::MAX
    }
}

/// Decides what is to be done about an event.
pub fn popup_step(st: &PopupState, event: Event, facts: &Facts) -> (r: Decision)
    requires
        sane_window(*facts),
        event matches Event::Size { w, h } ==> w < 0x10000 && h < 0x10000,
    ensures
        r@ == decided(*st, event, *facts),
{
    let done = Reply::Value(0);
    match event {
        Event::Create => one(*st, Action::Build, Reply::OfBuild),
        Event::TrayClick => toggle_popup(st, facts),
        Event::TrayMenu => one(*st, Action::OpenTrayMenu, done),
        Event::TrayOther => nothing(*st, done),
        Event::Hotkey { id } => if id == HOTKEY_ID {
            toggle_popup(st, facts)
        } else {
            nothing(*st, done)
        },
        Event::ClipboardUpdate => {
            let mut state: PopupState = *st;
            state.suppress_next = false;
            if st.suppress_next {
                nothing(state, done)
            } else {
                one(state, Action::Capture, done)
            }
        },
        Event::Deactivate { other } => {
            let mut state: PopupState = *st;
            if other != 0 && other != facts.own && facts.owner_of_other != facts.own {
                state.prev_fg = other;
            }
            nothing(state, done)
        },
        Event::Activate => nothing(*st, done),
        Event::Close => hide_popup(*st),
        Event::CalcSize { client } => nothing(
            *st,
            if client {
                done
            } else {
                Reply::Default
            },
        ),
        Event::NcPaint => nothing(*st, done),
        Event::HitTest { x, y } => match facts.window {
            Some(r) => nothing(*st, Reply::Value(hit_window_part(&r, x, y) as i64)),
            None => nothing(*st, Reply::Default),
        },
        Event::Paint => one(*st, Action::PaintFrame, done),
        Event::MinSize => one(*st, Action::SetMinSize, done),
        Event::Command { code, id } => command(st, facts, code, id),
        Event::Press { x, y } => match facts.client {
            Some((w, h)) => press(st, action_at(w, h, x, y)),
            None => nothing(*st, done),
        },
        Event::Move { x, y } => pointer(st, facts, x, y),
        Event::Leave => {
            let mut state: PopupState = *st;
            state.tracking = false;
            if st.footer_hot >= 0 {
                state.footer_hot = -1;
                one(state, Action::PaintFooter, done)
            } else {
                nothing(state, done)
            }
        },
        Event::EditColors => nothing(*st, Reply::EditBrush),
        Event::ControlColors => nothing(*st, Reply::WindowBrush),
        Event::DrawItem => if facts.control == CLOSE_BTN_ID {
            one(*st, Action::DrawClose, Reply::Value(1))
        } else {
            nothing(*st, Reply::Value(1))
        },
        Event::MeasureItem => nothing(*st, Reply::Value(1)),
        Event::Destroy => one(*st, Action::ShutDown, done),
        Event::Other => nothing(*st, Reply::Default),
        Event::Size { w, h } => {
            let layout = layout_popup(w as i32, h as i32);
            let mut state: PopupState = *st;
            if let Some(r) = facts.window {
                state.size_w = (r.right - r.left) as i32;
                state.size_h = (r.bottom - r.top) as i32;
            }
            one(state, Action::Place { layout }, done)
        },
    }
}

/// The state once a payload has been put on the clipboard, or has not been.
pub open spec fn publishing(st: PopupState, published: bool) -> PopupState {
    PopupState { suppress_next: st.suppress_next || published, ..st }
}

/// The state once one of our own items was put on the clipboard: the change
/// that the system will report is not captured.
pub fn after_publish(st: &PopupState, published: bool) -> (r: PopupState)
    ensures
        r == (PopupState { suppress_next: st.suppress_next || published, ..*st }),
        r == publishing(*st, published),
{
    let mut state: PopupState = *st;
    if published {
        state.suppress_next = true;
    }
    state
}

/// What pasting leads to once the selected item was put on the clipboard: the
/// popup gives way to the window that was in front before, and the keys that
/// paste are pressed there. Nothing where the item could not be put there.
pub open spec fn pasting(st: PopupState, published: bool) -> Seq<Action> {
    if !published {
        seq![]
    } else if st.prev_fg != 0 {
        hiding(st) + seq![Action::BringForward { window: st.prev_fg }, Action::PressPaste]
    } else {
        hiding(st) + seq![Action::PressPaste]
    }
}

/// What pasting leads to once the selected item was put on the clipboard.
pub fn paste_actions(st: &PopupState, published: bool) -> (r: Vec<Action>)
    ensures
        r@ == pasting(*st, published),
{
    if !published {
        let none: Vec<Action> = Vec::new();
        assert(none@ =~= pasting(*st, published));
        return none;
    }
    let mut actions = hide_actions(st);
    if st.prev_fg != 0 {
        actions.push(Action::BringForward { window: st.prev_fg });
    }
    actions.push(Action::PressPaste);
    assert(actions@ =~= pasting(*st, published));
    actions
}

// ---------------------------------------------------------------------
// Laws.
// ---------------------------------------------------------------------
/// What is put on the clipboard by the program itself is not captured, and
/// the next change is.
pub proof fn law_own_changes_are_not_captured(st: PopupState, facts: Facts)
    ensures
        ({
            let after = PopupState { suppress_next: true, ..st };
            let first = decided(after, Event::ClipboardUpdate, facts);
            let second = decided(first.0, Event::ClipboardUpdate, facts);
            &&& first.1.len() == 0
            &&& second.1 == seq![Action::Capture]
        }),
{
}

/// Closing the window only hides it: the program goes on.
pub proof fn law_close_hides(st: PopupState, facts: Facts)
    ensures
        decided(st, Event::Close, facts) == (st, hiding(st), Reply::Value(0)),
        !hiding(st).contains(Action::Quit),
        !hiding(st).contains(Action::ShutDown),
{
}

/// Whether the popup is hidden only once its size was remembered.
pub open spec fn saves_before_hiding(st: PopupState, actions: Seq<Action>) -> bool {
    forall|k: int|
        0 <= k < actions.len() && #[trigger] actions[k] == Action::Hide ==> k > 0 && actions[k - 1]
            == (Action::FlushSize { w: st.size_w, h: st.size_h })
}

/// Whenever an event hides the popup, its size was remembered just before.
pub proof fn law_hiding_saves_size(st: PopupState, event: Event, facts: Facts)
    ensures
        saves_before_hiding(st, decided(st, event, facts).1),
{
    let actions = decided(st, event, facts).1;
    match event {
        Event::Move { x, y } => {
            assert(actions == on_move(st, facts, x, y).1);
            assert(actions.len() <= 2);
        },
        _ => {},
    }
}

/// Whenever a key hides the popup, its size was remembered just before.
pub proof fn law_keys_save_size(
    st: PopupState,
    key: u16,
    ctrl: bool,
    list_focused: bool,
    sel: int,
    count: int,
)
    ensures
        key_actions_of(st, key, ctrl, list_focused, sel, count) matches Some(actions)
            ==> saves_before_hiding(st, actions),
{
}

/// Where the popup is hidden for pasting, its size was remembered just before.
pub proof fn law_pasting_saves_size(st: PopupState, published: bool)
    ensures
        saves_before_hiding(st, pasting(st, published)),
        published ==> pasting(st, published).contains(Action::Hide),
{
    if published {
        assert(pasting(st, published)[1] == Action::Hide);
    }
}

/// Escape hides the popup, and the settings that are saved for it hold its size
/// and are otherwise as they were.
pub proof fn law_escape_saves_size(
    st: PopupState,
    s: Settings,
    ctrl: bool,
    list_focused: bool,
    sel: int,
    count: int,
)
    ensures
        key_actions_of(st, VK_ESCAPE, ctrl, list_focused, sel, count) == Some(hiding(st)),
        hiding(st)[0] == (Action::FlushSize { w: st.size_w, h: st.size_h }),
        hiding(st)[1] == Action::Hide,
        sized(s, st.size_w, st.size_h) == (Settings {
            popup_w: Some(st.size_w),
            popup_h: Some(st.size_h),
            ..s
        }),
{
}

/// The hot key shows a hidden popup and hides a visible one.
pub proof fn law_hotkey_toggles(st: PopupState, facts: Facts)
    ensures
        ({
            let d = decided(st, Event::Hotkey { id: HOTKEY_ID }, facts);
            &&& facts.visible ==> d.1.contains(Action::Hide) && !d.1.contains(Action::Show)
            &&& !facts.visible ==> d.1.contains(Action::Show) && !d.1.contains(Action::Hide)
        }),
{
    let d = decided(st, Event::Hotkey { id: HOTKEY_ID }, facts);
    if facts.visible {
        assert(d.1[1] == Action::Hide);
    } else {
        assert(d.1[0] == Action::Show);
    }
}

/// The popup never becomes the window to paste into.
pub proof fn law_never_pastes_into_itself(
    st: PopupState,
    event: Event,
    facts: Facts,
)
    requires
        st.prev_fg != facts.own,
    ensures
        decided(st, event, facts).0.prev_fg != facts.own,
{
}

/// Switching the theme twice leaves it as it was.
pub proof fn law_theme_switch_undoes_itself(st: PopupState)
    ensures
        ({
            let once = on_footer(st, Some(FooterAction::ThemeToggle));
            let twice = on_footer(once.0, Some(FooterAction::ThemeToggle));
            &&& twice.0 == st
            &&& once.1 == seq![Action::SwitchTheme { light: st.is_dark }]
            &&& twice.1 == seq![Action::SwitchTheme { light: !st.is_dark }]
        }),
{
}

// ---------------------------------------------------------------------
// Keys.
// ---------------------------------------------------------------------
pub const VK_TAB: u16 = 0x09;

pub const VK_RETURN: u16 = 0x0d;

pub const VK_ESCAPE: u16 = 0x1b;

pub const VK_UP: u16 = 0x26;

pub const VK_DOWN: u16 = 0x28;

pub const VK_P: u16 = 0x50;

/// What a key does in the popup, where row `sel` of `count` is selected; `None`
/// where the key is not for the popup.
pub open spec fn key_actions_of(
    st: PopupState,
    key: u16,
    ctrl: bool,
    list_focused: bool,
    sel: int,
    count: int,
) -> Option<Seq<Action>> {
    if key == VK_ESCAPE {
        Some(hiding(st))
    } else if key == VK_RETURN {
        Some(seq![Action::Paste])
    } else if key == VK_TAB {
        if list_focused {
            Some(seq![Action::FocusSearch])
        } else {
            Some(seq![Action::FocusList])
        }
    } else if key == VK_P {
        if !ctrl {
            None
        } else if sel >= 0 {
            Some(seq![Action::TogglePin { row: sel as i32 }])
        } else {
            Some(seq![])
        }
    } else if key == VK_DOWN {
        if count <= 0 {
            Some(seq![])
        } else if sel + 1 < count {
            Some(seq![Action::Select { row: (sel + 1) as i32 }])
        } else {
            Some(seq![Action::Select { row: (count - 1) as i32 }])
        }
    } else if key == VK_UP {
        if count <= 0 {
            Some(seq![])
        } else if sel >= 1 {
            Some(seq![Action::Select { row: (sel - 1) as i32 }])
        } else {
            Some(seq![Action::Select { row: 0 }])
        }
    } else {
        None
    }
}

fn only(action: Action) -> (r: Option<Vec<Action>>)
    ensures
        r matches Some(actions) && actions@ == seq![action],
{
    let mut actions: Vec<Action> = Vec::new();
    actions.push(action);
    assert(actions@ =~= seq![action]);
    Some(actions)
}

fn swallow() -> (r: Option<Vec<Action>>)
    ensures
        r matches Some(actions) && actions@ == Seq::<Action>::empty(),
{
    let actions: Vec<Action> = Vec::new();
    assert(actions@ =~= Seq::<Action>::empty());
    Some(actions)
}

/// What a key does in the popup, where row `sel` of `count` is selected; `None`
/// where the key is not for the popup.
pub fn handle_popup_key(
    st: &PopupState,
    key: u16,
    ctrl: bool,
    list_focused: bool,
    sel: i32,
    count: i32,
) -> (r: Option<Vec<Action>>)
    ensures
        r is Some == key_actions_of(*st, key, ctrl, list_focused, sel as int, count as int) is Some,
        r matches Some(actions) ==> key_actions_of(
            *st,
            key,
            ctrl,
            list_focused,
            sel as int,
            count as int,
        ) == Some(actions@),
{
    if key == VK_ESCAPE {
        Some(hide_actions(st))
    } else if key == VK_RETURN {
        only(Action::Paste)
    } else if key == VK_TAB {
        if list_focused {
            only(Action::FocusSearch)
        } else {
            only(Action::FocusList)
        }
    } else if key == VK_P {
        if !ctrl {
            None
        } else if sel >= 0 {
            only(Action::TogglePin { row: sel })
        } else {
            swallow()
        }
    } else if key == VK_DOWN {
        if count <= 0 {
            swallow()
        } else if (sel as i64) + 1 < count as i64 {
            only(Action::Select { row: sel + 1 })
        } else {
            only(Action::Select { row: count - 1 })
        }
    } else if key == VK_UP {
        if count <= 0 {
            swallow()
        } else if sel >= 1 {
            only(Action::Select { row: sel - 1 })
        } else {
            only(Action::Select { row: 0 })
        }
    } else {
        None
    }
}

/// The arrow keys stay on the rows that there are.
pub proof fn law_arrows_stay_in_list(
    st: PopupState,
    key: u16,
    ctrl: bool,
    list_focused: bool,
    sel: int,
    count: int,
    k: int,
)
    requires
        -1 <= sel < count <= i32::MAX,
    ensures
        key_actions_of(st, key, ctrl, list_focused, sel, count) matches Some(actions) ==> (0 <= k
            < actions.len() ==> (actions[k] matches Action::Select { row } ==> 0 <= row < count)),
{
}

// ---------------------------------------------------------------------
// What each message and each key does.
// ---------------------------------------------------------------------
/// The messages of the popup by their numbers. A click on the tray icon and the
/// loss of the focus are told by the parameters.
pub proof fn law_popup_messages(msg: u32, wp: u64, lp: u64)
    ensures
        popup_event_of(0x01, wp, lp) == (Event::Create),
        popup_event_of(0x0312, wp, lp) == (Event::Hotkey { id: (wp % 0x1_0000_0000) as u64 }),
        popup_event_of(0x031d, wp, lp) == (Event::ClipboardUpdate),
        popup_event_of(0x10, wp, lp) == (Event::Close),
        popup_event_of(0x83, wp, lp) == (Event::CalcSize { client: wp != 0 }),
        popup_event_of(0x85, wp, lp) == (Event::NcPaint),
        popup_event_of(0x84, wp, lp) == (Event::HitTest {
            x: signed_low_of(lp),
            y: signed_high_of(lp),
        }),
        popup_event_of(0x0f, wp, lp) == (Event::Paint),
        popup_event_of(0x24, wp, lp) == (Event::MinSize),
        popup_event_of(0x0111, wp, lp) == (Event::Command { code: high_of(wp), id: low_of(wp) }),
        popup_event_of(0x0201, wp, lp) == (Event::Press {
            x: signed_low_of(lp),
            y: signed_high_of(lp),
        }),
        popup_event_of(0x0200, wp, lp) == (Event::Move {
            x: signed_low_of(lp),
            y: signed_high_of(lp),
        }),
        popup_event_of(0x02a3, wp, lp) == (Event::Leave),
        popup_event_of(0x0133, wp, lp) == (Event::EditColors),
        popup_event_of(0x0134, wp, lp) == (Event::ControlColors),
        popup_event_of(0x0135, wp, lp) == (Event::ControlColors),
        popup_event_of(0x0138, wp, lp) == (Event::ControlColors),
        popup_event_of(0x2b, wp, lp) == (Event::DrawItem),
        popup_event_of(0x2c, wp, lp) == (Event::MeasureItem),
        popup_event_of(0x05, wp, lp) == (Event::Size { w: low_of(lp), h: high_of(lp) }),
        popup_event_of(0x02, wp, lp) == (Event::Destroy),
        msg != 0x01 && msg != 0x0312 && msg != 0x031d && msg != 0x10 && msg != 0x83 && msg !=
            0x85 && msg != 0x84 && msg != 0x0f && msg != 0x24 && msg != 0x0111 && msg != 0x0201 &&
            msg != 0x0200 && msg != 0x02a3 && msg != 0x0133 && msg != 0x0134 && msg != 0x0135 && msg
            != 0x0138 && msg != 0x2b && msg != 0x2c && msg != 0x05 && msg != 0x02 && msg != 0x8001
            && msg != 0x06 ==> popup_event_of(
            msg,
            wp,
            lp,
        ) == Event::Other,
        lp % 0x1_0000_0000 == 0x0202 ==> popup_event_of(0x8001, wp, lp) == Event::TrayClick,
        lp % 0x1_0000_0000 == 0x0205 ==> popup_event_of(0x8001, wp, lp) == Event::TrayMenu,
        lp % 0x1_0000_0000 != 0x0202 && lp % 0x1_0000_0000 != 0x0205 ==> popup_event_of(
            0x8001,
            wp,
            lp,
        ) == Event::TrayOther,
        wp % 0x1_0000 == 0 ==> popup_event_of(0x06, wp, lp) == (Event::Deactivate { other: lp }),
        wp % 0x1_0000 != 0 ==> popup_event_of(0x06, wp, lp) == Event::Activate,
{
}

/// The hotkey and a click on the tray icon hide the popup where it can be seen,
/// with its size saved first, and show it where it cannot. The window that was
/// in front is remembered, unless that is the popup itself.
pub proof fn law_popup_toggles(st: PopupState, facts: Facts, id: u64)
    ensures
        ({
            let d = decided(st, Event::TrayClick, facts);
            let k = decided(st, Event::Hotkey { id: 1 }, facts);
            let other = decided(st, Event::Hotkey { id }, facts);
            &&& k == d
            &&& facts.visible ==> d.0 == st && d.1 == seq![
                Action::FlushSize { w: st.size_w, h: st.size_h },
                Action::Hide,
            ]
            &&& !facts.visible ==> d.1 == seq![Action::Show]
            &&& !facts.visible && facts.foreground != facts.own ==> d.0 == (PopupState {
                prev_fg: facts.foreground,
                ..st
            })
            &&& !facts.visible && facts.foreground == facts.own ==> d.0 == st
            &&& d.2 == Reply::Value(0)
            &&& id != 1 ==> other.0 == st && other.1.len() == 0
        }),
{
}

/// The commands of the popup: a double click in the list pastes, a change of
/// the search field filters, the close button hides; the entries of the tray
/// menu do what they say. Any other command does nothing.
pub proof fn law_popup_commands(st: PopupState, facts: Facts, code: u32, id: u32)
    ensures
        ({
            let d = decided(st, Event::Command { code, id }, facts);
            let menu = code == 0 && id != 3;
            &&& d.2 == Reply::Value(0)
            &&& code == 2 && id == 2 ==> d.0 == st && d.1 == seq![Action::Paste]
            &&& code == 0x0300 && id == 1 ==> d.0 == st && d.1 == seq![Action::Filter]
            &&& id == 3 ==> d.0 == st && d.1 == seq![
                Action::FlushSize { w: st.size_w, h: st.size_h },
                Action::Hide,
            ]
            &&& code == 0 && id == 100 ==> d.1 == seq![Action::Show] && d.0.prev_fg == (
            if facts.foreground != facts.own {
                facts.foreground
            } else {
                st.prev_fg
            })
            &&& code == 0 && id == 101 ==> d.0 == st && d.1 == seq![Action::ClearHistory]
            &&& code == 0 && id == 102 ==> d.0 == st && d.1 == seq![Action::ShowSettings]
            &&& code == 0 && id == 103 ==> d.0 == st && d.1 == seq![Action::Quit]
            &&& code == 0 && id == 104 ==> d.0 == st && d.1 == seq![Action::ShowAbout]
            &&& !(code == 2 && id == 2) && !(code == 0x0300 && id == 1) && id != 3 && !(menu && 100
                <= id <= 104) ==> d.0 == st && d.1.len() == 0
        }),
{
}

/// A change of the clipboard is captured, but for the one change that the
/// program made itself.
pub proof fn law_clipboard_changes(st: PopupState, facts: Facts)
    ensures
        ({
            let d = decided(st, Event::ClipboardUpdate, facts);
            &&& d.0 == (PopupState { suppress_next: false, ..st })
            &&& st.suppress_next ==> d.1.len() == 0
            &&& !st.suppress_next ==> d.1 == seq![Action::Capture]
            &&& d.2 == Reply::Value(0)
        }),
{
}

/// The window that takes the focus is remembered as the one to paste into,
/// unless there is none or it belongs to the popup.
pub proof fn law_focus_moves(st: PopupState, facts: Facts, other: u64)
    ensures
        ({
            let d = decided(st, Event::Deactivate { other }, facts);
            &&& d.1.len() == 0 && d.2 == Reply::Value(0)
            &&& other != 0 && other != facts.own && facts.owner_of_other != facts.own ==> d.0 == (
            PopupState { prev_fg: other, ..st })
            &&& other == 0 || other == facts.own || facts.owner_of_other == facts.own ==> d.0 == st
        }),
{
}

/// A press on a button of the footer does what the button is for, and one
/// beside them nothing.
pub proof fn law_footer_presses(st: PopupState, facts: Facts, w: i32, h: i32, x: i32, y: i32)
    requires
        facts.client == Some((w, h)),
    ensures
        ({
            let d = decided(st, Event::Press { x, y }, facts);
            let left = w - 206;
            let inside = h - 44 < y < h && left <= x < w - 6;
            &&& d.2 == Reply::Value(0)
            &&& !inside ==> d.0 == st && d.1.len() == 0
            &&& inside && x < left + 40 ==> d.0 == (PopupState { is_dark: !st.is_dark, ..st })
                && d.1 == seq![Action::SwitchTheme { light: st.is_dark }]
            &&& inside && left + 40 <= x < left + 80 ==> d.0 == st && d.1 == seq![
                Action::ClearHistory,
            ]
            &&& inside && left + 80 <= x < left + 120 ==> d.0 == st && d.1 == seq![
                Action::ShowSettings,
            ]
            &&& inside && left + 120 <= x < left + 160 ==> d.0 == st && d.1 == seq![
                Action::ShowAbout,
            ]
            &&& inside && left + 160 <= x ==> d.0 == st && d.1 == seq![Action::Quit]
        }),
{
}

/// The button under the mouse is highlighted; the footer is painted anew where
/// that changes, and the mouse is followed until it leaves.
pub proof fn law_mouse_moves(st: PopupState, facts: Facts, w: i32, h: i32, x: i32, y: i32)
    requires
        facts.client == Some((w, h)),
        -1 <= st.footer_hot < 5,
    ensures
        ({
            let d = decided(st, Event::Move { x, y }, facts);
            let hot = button_at(w as int, h as int, x as int, y as int);
            &&& d.0 == (PopupState { footer_hot: hot as i32, tracking: true, ..st })
            &&& d.1.contains(Action::PaintFooter) == (hot != st.footer_hot)
            &&& d.1.contains(Action::TrackLeave) == !st.tracking
            &&& d.1.len() <= 2
            &&& d.2 == Reply::Default
        }),
        ({
            let d = decided(st, Event::Leave, facts);
            &&& d.0 == (PopupState { footer_hot: -1i32, tracking: false, ..st })
            &&& d.1.contains(Action::PaintFooter) == (st.footer_hot != -1)
            &&& d.1.len() <= 1
        }),
{
    let d = decided(st, Event::Move { x, y }, facts);
    let hot = button_at(w as int, h as int, x as int, y as int);
    if hot != st.footer_hot {
        assert(d.1[0] == Action::PaintFooter);
    }
    if !st.tracking {
        assert(d.1[d.1.len() - 1] == Action::TrackLeave);
    }
    let l = decided(st, Event::Leave, facts);
    if st.footer_hot != -1 {
        assert(l.1[0] == Action::PaintFooter);
    }
}

/// The other messages: the frame is painted by the popup itself, hits are told
/// by the part of the window, the controls get their brushes, and only the
/// close button is drawn by hand.
pub proof fn law_other_messages(st: PopupState, facts: Facts, x: i32, y: i32, r: Rect)
    ensures
        decided(st, Event::Create, facts) == (st, seq![Action::Build], Reply::OfBuild),
        decided(st, Event::TrayMenu, facts) == (st, seq![Action::OpenTrayMenu], Reply::Value(0)),
        decided(st, Event::Paint, facts) == (st, seq![Action::PaintFrame], Reply::Value(0)),
        decided(st, Event::MinSize, facts) == (st, seq![Action::SetMinSize], Reply::Value(0)),
        decided(st, Event::Destroy, facts) == (st, seq![Action::ShutDown], Reply::Value(0)),
        decided(st, Event::Activate, facts) == (st, Seq::<Action>::empty(), Reply::Value(0)),
        decided(st, Event::TrayOther, facts) == (st, Seq::<Action>::empty(), Reply::Value(0)),
        decided(st, Event::NcPaint, facts) == (st, Seq::<Action>::empty(), Reply::Value(0)),
        decided(st, Event::CalcSize { client: true }, facts) == (
            st,
            Seq::<Action>::empty(),
            Reply::Value(0),
        ),
        decided(st, Event::CalcSize { client: false }, facts) == (
            st,
            Seq::<Action>::empty(),
            Reply::Default,
        ),
        decided(st, Event::EditColors, facts) == (st, Seq::<Action>::empty(), Reply::EditBrush),
        decided(st, Event::ControlColors, facts) == (
            st,
            Seq::<Action>::empty(),
            Reply::WindowBrush,
        ),
        decided(st, Event::MeasureItem, facts) == (st, Seq::<Action>::empty(), Reply::Value(1)),
        decided(st, Event::Other, facts) == (st, Seq::<Action>::empty(), Reply::Default),
        facts.control == 3 ==> decided(st, Event::DrawItem, facts) == (
            st,
            seq![Action::DrawClose],
            Reply::Value(1),
        ),
        facts.control != 3 ==> decided(st, Event::DrawItem, facts) == (
            st,
            Seq::<Action>::empty(),
            Reply::Value(1),
        ),
        facts.window == Some(r) ==> decided(st, Event::HitTest { x, y }, facts) == (
            st,
            Seq::<Action>::empty(),
            Reply::Value(window_part(r, x as int, y as int) as i64),
        ),
        facts.window is None ==> decided(st, Event::HitTest { x, y }, facts) == (
            st,
            Seq::<Action>::empty(),
            Reply::Default,
        ),
{
}

/// A new size places the controls, and the size of the whole window is kept for
/// saving, where it is known.
pub proof fn law_new_size(st: PopupState, facts: Facts, w: u32, h: u32, r: Rect)
    requires
        sane_window(facts),
    ensures
        ({
            let d = decided(st, Event::Size { w, h }, facts);
            &&& d.1 == seq![Action::Place { layout: popup_layout(w as int, h as int) }]
            &&& d.2 == Reply::Value(0)
            &&& facts.window is None ==> d.0 == st
            &&& facts.window == Some(r) ==> d.0.size_w == r.right - r.left && d.0.size_h == r.bottom
                - r.top && (PopupState { size_w: st.size_w, size_h: st.size_h, ..d.0 }) == st
        }),
{
}

/// What a message leaves alone: the size changes only with the window, the theme
/// only by a press, what is not captured only with the clipboard, the highlight
/// only with the mouse, and the window to paste into only where the focus moves
/// or the popup is shown.
pub proof fn law_messages_leave_the_rest(st: PopupState, event: Event, facts: Facts)
    ensures
        ({
            let after = decided(st, event, facts).0;
            &&& !(event is Size) ==> after.size_w == st.size_w && after.size_h == st.size_h
            &&& !(event is Press) ==> after.is_dark == st.is_dark
            &&& !(event is ClipboardUpdate) ==> after.suppress_next == st.suppress_next
            &&& !(event is Move) && !(event is Leave) ==> after.footer_hot == st.footer_hot
                && after.tracking == st.tracking
            &&& !(event is Deactivate) && !decided(st, event, facts).1.contains(Action::Show)
                ==> after.prev_fg == st.prev_fg
        }),
{
    let d = decided(st, event, facts);
    if d.0.prev_fg != st.prev_fg && !(event is Deactivate) {
        assert(d.1[0] == Action::Show);
    }
}

/// The keys: Escape hides with the size saved first, Enter pastes, Tab goes to
/// and fro between the search field and the list, Ctrl and P pins the selected
/// row, and the arrows select the next row or the one before, as far as there
/// is one. Any other key is left to the control that has the focus.
pub proof fn law_popup_keys(
    st: PopupState,
    key: u16,
    ctrl: bool,
    list_focused: bool,
    sel: int,
    count: int,
)
    requires
        -1 <= sel < count || (sel == -1 && count == 0),
        count <= i32::MAX,
    ensures
        ({
            let r = key_actions_of(st, key, ctrl, list_focused, sel, count);
            &&& key == 27 ==> r == Some(
                seq![Action::FlushSize { w: st.size_w, h: st.size_h }, Action::Hide],
            )
            &&& key == 13 ==> r == Some(seq![Action::Paste])
            &&& key == 9 && list_focused ==> r == Some(seq![Action::FocusSearch])
            &&& key == 9 && !list_focused ==> r == Some(seq![Action::FocusList])
            &&& key == 80 && !ctrl ==> r is None
            &&& key == 80 && ctrl && sel >= 0 ==> r == Some(
                seq![Action::TogglePin { row: sel as i32 }],
            )
            &&& key == 80 && ctrl && sel < 0 ==> r == Some(Seq::<Action>::empty())
            &&& (key == 40 || key == 38) && count == 0 ==> r == Some(Seq::<Action>::empty())
            &&& key == 40 && count > 0 && sel < count - 1 ==> r == Some(
                seq![Action::Select { row: (sel + 1) as i32 }],
            )
            &&& key == 40 && count > 0 && sel == count - 1 ==> r == Some(
                seq![Action::Select { row: sel as i32 }],
            )
            &&& key == 38 && count > 0 && sel > 0 ==> r == Some(
                seq![Action::Select { row: (sel - 1) as i32 }],
            )
            &&& key == 38 && count > 0 && sel <= 0 ==> r == Some(seq![Action::Select { row: 0 }])
            &&& key != 27 && key != 13 && key != 9 && key != 80 && key != 40 && key != 38
                ==> r is None
        }),
{
}

/// Pasting hides the popup with its size saved first, brings the window that was
/// in front back to it, and presses the keys, in this order; nothing of it where
/// there was nothing to paste.
pub proof fn law_pasting_order(st: PopupState)
    ensures
        pasting(st, false).len() == 0,
        st.prev_fg != 0 ==> pasting(st, true) == seq![
            Action::FlushSize { w: st.size_w, h: st.size_h },
            Action::Hide,
            Action::BringForward { window: st.prev_fg },
            Action::PressPaste,
        ],
        st.prev_fg == 0 ==> pasting(st, true) == seq![
            Action::FlushSize { w: st.size_w, h: st.size_h },
            Action::Hide,
            Action::PressPaste,
        ],
{
    if st.prev_fg != 0 {
        assert(pasting(st, true) =~= seq![
            Action::FlushSize { w: st.size_w, h: st.size_h },
            Action::Hide,
            Action::BringForward { window: st.prev_fg },
            Action::PressPaste,
        ]);
    } else {
        assert(pasting(st, true) =~= seq![
            Action::FlushSize { w: st.size_w, h: st.size_h },
            Action::Hide,
            Action::PressPaste,
        ]);
    }
}

/// What the program puts on the clipboard itself is not captured, once for each
/// time; where nothing was put there, nothing changes.
pub proof fn law_published_is_not_captured(st: PopupState, facts: Facts)
    ensures
        publishing(st, false) == st,
        ({
            let first = decided(publishing(st, true), Event::ClipboardUpdate, facts);
            let second = decided(first.0, Event::ClipboardUpdate, facts);
            &&& first.1.len() == 0
            &&& first.0 == (PopupState { suppress_next: false, ..st })
            &&& second.1 == seq![Action::Capture]
        }),
{
}

/// Where the size of the window is not known, a press does nothing and the
/// highlight stays.
pub proof fn law_unknown_size(st: PopupState, facts: Facts, x: i32, y: i32)
    requires
        facts.client is None,
    ensures
        decided(st, Event::Press { x, y }, facts) == (
            st,
            Seq::<Action>::empty(),
            Reply::Value(0),
        ),
        decided(st, Event::Move { x, y }, facts).0 == (PopupState { tracking: true, ..st }),
        !decided(st, Event::Move { x, y }, facts).1.contains(Action::PaintFooter),
{
}

} // verus!
