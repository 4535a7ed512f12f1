//! Settings, themes, the tray icon and the start with the system.

use vstd::prelude::*;

use crate::item::{dark_palette, light_palette, Palette};
use crate::item::{dark_colors, light_colors};
use crate::list::MenuEntry;
use crate::list::entry_views;
use crate::text::decimal;
use crate::text::push_decimal;
use crate::wide::push_utf16;
use crate::wide::utf16;

verus! {

// ---------------------------------------------------------------------
// Settings.
// ---------------------------------------------------------------------
/// The size of the popup where none was saved.
pub const POPUP_W: i32 = 400;

pub const POPUP_H: i32 = 500;

/// The smallest size of the popup.
pub const POPUP_MIN_W: i32 = 280;

pub const POPUP_MIN_H: i32 = 280;

/// What is remembered from one start to the next.
#[derive(Clone, Copy, Debug, PartialEq, Eq, Structural)]
pub struct Settings {
    /// Whether the user was asked about starting with the system.
    pub autostart_prompted: bool,
    /// Whether the program starts with the system.
    pub autostart_enabled: bool,
    /// The last size of the popup.
    pub popup_w: Option<i32>,
    pub popup_h: Option<i32>,
    /// The theme that the user chose: `Some(true)` is light, `Some(false)` is
    /// dark, `None` follows the system.
    pub theme_override: Option<bool>,
}

/// The settings before anything is remembered.
pub open spec fn no_settings() -> Settings {
    Settings {
        autostart_prompted: false,
        autostart_enabled: false,
        popup_w: None,
        popup_h: None,
        theme_override: None,
    }
}

impl Default for Settings {
    fn default() -> (r: Settings)
        ensures
            r == no_settings(),
    {
        Settings {
            autostart_prompted: false,
            autostart_enabled: false,
            popup_w: None,
            popup_h: None,
            theme_override: None,
        }
    }
}

/// The settings with the size of the popup in them; everything else stays.
pub open spec fn sized(s: Settings, w: i32, h: i32) -> Settings {
    Settings { popup_w: Some(w), popup_h: Some(h), ..s }
}

/// `s` with the size of the popup remembered.
pub fn with_popup_size(s: &Settings, w: i32, h: i32) -> (r: Settings)
    ensures
        r == sized(*s, w, h),
{
    Settings {
        autostart_prompted: s.autostart_prompted,
        autostart_enabled: s.autostart_enabled,
        popup_w: Some(w),
        popup_h: Some(h),
        theme_override: s.theme_override,
    }
}

/// `s` with the theme that was chosen.
pub open spec fn themed(s: Settings, light: bool) -> Settings {
    Settings { theme_override: Some(light), ..s }
}

/// `s` with the theme remembered.
pub fn with_theme(s: &Settings, light: bool) -> (r: Settings)
    ensures
        r == (Settings { theme_override: Some(light), ..*s }),
        r == themed(*s, light),
{
    Settings {
        autostart_prompted: s.autostart_prompted,
        autostart_enabled: s.autostart_enabled,
        popup_w: s.popup_w,
        popup_h: s.popup_h,
        theme_override: Some(light),
    }
}

/// A saved length, where it is no shorter than the least one.
pub open spec fn saved_or(saved: Option<i32>, least: i32, default: i32) -> i32 {
    match saved {
        Some(n) => if n >= least {
            n
        } else {
            default
        },
        None => default,
    }
}

fn pick_length(saved: Option<i32>, least: i32, default: i32) -> (r: i32)
    ensures
        r == saved_or(saved, least, default),
{
    match saved {
        Some(n) => if n >= least {
            n
        } else {
            default
        },
        None => default,
    }
}

/// The size in which the popup starts.
pub fn initial_popup_size(s: &Settings) -> (r: (i32, i32))
    ensures
        r.0 == saved_or(s.popup_w, POPUP_MIN_W, POPUP_W),
        r.1 == saved_or(s.popup_h, POPUP_MIN_H, POPUP_H),
        r.0 >= POPUP_MIN_W,
        r.1 >= POPUP_MIN_H,
{
    (
        pick_length(s.popup_w, POPUP_MIN_W, POPUP_W),
        pick_length(s.popup_h, POPUP_MIN_H, POPUP_H),
    )
}

/// A size that was remembered is the size in which the popup starts again,
/// unless it is too small.
pub proof fn law_popup_size_survives(s: Settings, w: i32, h: i32)
    requires
        w >= POPUP_MIN_W,
        h >= POPUP_MIN_H,
    ensures
        ({
            let saved = sized(s, w, h);
            &&& saved_or(saved.popup_w, POPUP_MIN_W, POPUP_W) == w
            &&& saved_or(saved.popup_h, POPUP_MIN_H, POPUP_H) == h
        }),
{
}

// ---------------------------------------------------------------------
// Themes.
// ---------------------------------------------------------------------
/// Whether the light theme is used: the user decides before the system, and
/// light is used where neither does.
pub open spec fn uses_light(chosen: Option<bool>, system: Option<bool>) -> bool {
    match chosen {
        Some(light) => light,
        None => match system {
            Some(light) => light,
            None => true,
        },
    }
}

/// The colours of a theme, and whether it is the dark one.
pub open spec fn theme_colors(light: bool) -> (Palette, bool) {
    if light {
        (light_colors(), false)
    } else {
        (dark_colors(), true)
    }
}

/// The colours of a theme, and whether it is the dark one.
pub fn theme_palette(light: bool) -> (r: (Palette, bool))
    ensures
        r == theme_colors(light),
{
    if light {
        (light_palette(), false)
    } else {
        (dark_palette(), true)
    }
}

/// The colours to use, and whether they are the dark ones, given what the user
/// chose and what the system is set to.
pub fn detect_palette(chosen: Option<bool>, system: Option<bool>) -> (r: (Palette, bool))
    ensures
        r == theme_colors(uses_light(chosen, system)),
{
    let light = match chosen {
        Some(light) => light,
        None => match system {
            Some(light) => light,
            None => true,
        },
    };
    theme_palette(light)
}

/// Whether the value that the system keeps for its theme stands for the light
/// one.
pub open spec fn is_light_value(value: u32) -> bool {
    value != 0
}

/// Whether the system is set to light, given the number that it stores.
pub fn system_is_light(value: u32) -> (r: bool)
    ensures
        r == (value != 0),
        r == is_light_value(value),
{
    value != 0
}

/// A theme that was chosen is the theme of the next start, whatever the system
/// is set to.
pub proof fn law_theme_survives(s: Settings, light: bool, system: Option<bool>)
    ensures
        uses_light((Settings { theme_override: Some(light), ..s }).theme_override, system)
            == light,
{
}

// ---------------------------------------------------------------------
// Starting with the system.
// ---------------------------------------------------------------------
/// Whether to ask about starting with the system: once.
pub open spec fn asks_autostart(s: Settings) -> bool {
    !s.autostart_prompted
}

/// The settings once the user has answered; `registered` says whether the
/// program could be registered after a yes.
pub open spec fn answered(s: Settings, registered: bool) -> Settings {
    Settings {
        autostart_prompted: true,
        autostart_enabled: s.autostart_enabled || registered,
        ..s
    }
}

/// Whether to ask about starting with the system: once.
pub fn should_prompt_autostart(s: &Settings) -> (r: bool)
    ensures
        r == asks_autostart(*s),
{
    !s.autostart_prompted
}

/// The settings once the user has answered; `registered` says whether the
/// program could be registered after a yes.
pub fn after_autostart_prompt(s: &Settings, registered: bool) -> (r: Settings)
    ensures
        r == answered(*s, registered),
{
    Settings {
        autostart_prompted: true,
        autostart_enabled: s.autostart_enabled || registered,
        popup_w: s.popup_w,
        popup_h: s.popup_h,
        theme_override: s.theme_override,
    }
}

/// Nobody is asked twice, whatever the answer was and whatever is remembered
/// later.
pub proof fn law_asked_once(s: Settings, registered: bool, w: i32, h: i32, light: bool)
    ensures
        ({
            let after = answered(s, registered);
            &&& !asks_autostart(after)
            &&& !asks_autostart(sized(after, w, h))
            &&& !asks_autostart(Settings { theme_override: Some(light), ..after })
        }),
{
}

/// `path` in quotes.
pub open spec fn in_quotes(path: Seq<char>) -> Seq<char> {
    seq!['"'] + path + seq!['"']
}

/// The command line that starts the program: its path in quotes.
pub fn quoted(path: &str) -> (r: String)
    ensures
        r@ == seq!['"'] + path@ + seq!['"'],
        r@ == in_quotes(path@),
{
    let mut out = String::new();
    out.push('"');
    out.append(path);
    out.push('"');
    assert(out@ =~= seq!['"'] + path@ + seq!['"']);
    out
}

// ---------------------------------------------------------------------
// The tray icon.
// ---------------------------------------------------------------------
/// The most UTF-16 units of a tray tip.
pub const TRAY_TIP_MAX: usize = 127;

/// The tip of the tray icon: the name, and how many items are pinned.
pub open spec fn tray_label(pinned: nat) -> Seq<char> {
    if pinned > 0 {
        "Clippet \u{2014} "@ + decimal(pinned) + " pinned"@
    } else {
        "Clippet"@
    }
}

/// `units`, cut to the length of a tray tip.
pub open spec fn cut_tip(units: Seq<u16>) -> Seq<u16> {
    if units.len() <= TRAY_TIP_MAX {
        units
    } else {
        units.take(TRAY_TIP_MAX as int)
    }
}

/// The tip of the tray icon.
pub fn tray_tooltip(pinned: usize) -> (r: String)
    ensures
        r@ == tray_label(pinned as nat),
{
    if pinned == 0 {
        return "Clippet".to_owned();
    }
    let mut out = "Clippet \u{2014} ".to_owned();
    push_decimal(&mut out, pinned as u128);
    out.append(" pinned");
    out
}

/// The tip of the tray icon in UTF-16, cut to the space that there is for it.
pub fn tray_tip_units(pinned: usize) -> (r: Vec<u16>)
    ensures
        r@ == cut_tip(utf16(tray_label(pinned as nat))),
        r@.len() <= TRAY_TIP_MAX,
{
    let label = tray_tooltip(pinned);
    let mut units: Vec<u16> = Vec::new();
    push_utf16(&mut units, label.as_str());
    assert(units@ =~= utf16(label@));
    if units.len() > TRAY_TIP_MAX {
        units.truncate(TRAY_TIP_MAX);
    }
    units
}

pub const IDM_OPEN: u32 = 100;

pub const IDM_CLEAR: u32 = 101;

pub const IDM_SETTINGS: u32 = 102;

pub const IDM_EXIT: u32 = 103;

pub const IDM_ABOUT: u32 = 104;

/// The entries of the menu of the tray icon.
pub open spec fn tray_menu_entries() -> Seq<(u32, Seq<char>)> {
    seq![
        (IDM_OPEN, "Open Clippet"@),
        (IDM_CLEAR, "Clear History"@),
        (IDM_SETTINGS, "Settings..."@),
        (0, ""@),
        (IDM_EXIT, "Exit"@),
    ]
}

/// The entries of the menu of the tray icon.
pub fn tray_menu() -> (r: Vec<MenuEntry>)
    ensures
        entry_views(r@) == tray_menu_entries(),
{
    let mut out: Vec<MenuEntry> = Vec::new();
    out.push(MenuEntry { id: IDM_OPEN, text: "Open Clippet" });
    out.push(MenuEntry { id: IDM_CLEAR, text: "Clear History" });
    out.push(MenuEntry { id: IDM_SETTINGS, text: "Settings..." });
    out.push(MenuEntry { id: 0, text: "" });
    out.push(MenuEntry { id: IDM_EXIT, text: "Exit" });
    assert(entry_views(out@) =~= tray_menu_entries());
    out
}

// ---------------------------------------------------------------------
// Settings one by one.
// ---------------------------------------------------------------------
/// Nothing is set at first: no size, no theme, and autostart has not been asked
/// about.
pub proof fn law_no_settings()
    ensures
        !no_settings().autostart_prompted,
        !no_settings().autostart_enabled,
        no_settings().popup_w is None && no_settings().popup_h is None,
        no_settings().theme_override is None,
        asks_autostart(no_settings()),
{
}

/// Saving a size changes the size and nothing else.
pub proof fn law_sized(s: Settings, w: i32, h: i32)
    ensures
        sized(s, w, h).popup_w == Some(w) && sized(s, w, h).popup_h == Some(h),
        sized(s, w, h).autostart_prompted == s.autostart_prompted,
        sized(s, w, h).autostart_enabled == s.autostart_enabled,
        sized(s, w, h).theme_override == s.theme_override,
{
}

/// The popup opens at 400 by 500 pixels, or at the size saved, where that is at
/// least 280 by 280.
pub proof fn law_initial_size(n: i32)
    ensures
        POPUP_W == 400 && POPUP_H == 500 && POPUP_MIN_W == 280 && POPUP_MIN_H == 280,
        saved_or(None, 280, 400) == 400,
        n >= 280 ==> saved_or(Some(n), 280, 400) == n && saved_or(Some(n), 280, 500) == n,
        n < 280 ==> saved_or(Some(n), 280, 400) == 400 && saved_or(Some(n), 280, 500) == 500,
        saved_or(None, 280, 500) == 500,
{
}

/// The theme is the one that was chosen, else that of the system, else the
/// light one.
pub proof fn law_theme_choice(light: bool, system: Option<bool>)
    ensures
        uses_light(Some(light), system) == light,
        uses_light(None, Some(light)) == light,
        uses_light(None, None),
        theme_colors(true) == (light_colors(), false),
        theme_colors(false) == (dark_colors(), true),
{
}

/// Once asked about, autostart is not asked about again; it is on where it was
/// or where it has been registered, and nothing else changes.
pub proof fn law_autostart_answer(s: Settings, registered: bool)
    ensures
        answered(s, registered).autostart_prompted,
        answered(s, registered).autostart_enabled == (s.autostart_enabled || registered),
        answered(s, registered).popup_w == s.popup_w && answered(s, registered).popup_h
            == s.popup_h,
        answered(s, registered).theme_override == s.theme_override,
        asks_autostart(s) == !s.autostart_prompted,
{
}

/// The hint of the tray icon names the program, and the number of pinned items
/// where there are any; at most 127 units of it are shown.
pub proof fn law_tray_tip(n: nat, units: Seq<u16>)
    ensures
        tray_label(0) == "Clippet"@,
        n > 0 ==> tray_label(n) == "Clippet \u{2014} "@ + decimal(n) + " pinned"@,
        units.len() <= 127 ==> cut_tip(units) == units,
        units.len() > 127 ==> cut_tip(units) == units.subrange(0, 127),
        TRAY_TIP_MAX == 127,
{
}

/// The menu of the tray icon, with the numbers of its commands.
pub proof fn law_tray_menu()
    ensures
        tray_menu_entries() == seq![
            (100u32, "Open Clippet"@),
            (101u32, "Clear History"@),
            (102u32, "Settings..."@),
            (0u32, ""@),
            (103u32, "Exit"@),
        ],
        IDM_ABOUT == 104,
{
}

/// A theme that is chosen is used from then on, whatever the system says, and
/// nothing else changes by it. The last choice counts.
pub proof fn law_themed(s: Settings, light: bool, before: bool, system: Option<bool>)
    ensures
        uses_light(themed(s, light).theme_override, system) == light,
        themed(themed(s, before), light) == themed(s, light),
        themed(s, light).popup_w == s.popup_w && themed(s, light).popup_h == s.popup_h,
        themed(s, light).autostart_prompted == s.autostart_prompted,
        themed(s, light).autostart_enabled == s.autostart_enabled,
{
}

/// The system keeps zero for its dark theme and anything else for the light one.
pub proof fn law_light_values(value: u32)
    ensures
        !is_light_value(0),
        value > 0 ==> is_light_value(value),
{
}

/// A path in quotes is the path between two quotation marks.
pub proof fn law_in_quotes(path: Seq<char>)
    ensures
        in_quotes(path).len() == path.len() + 2,
        in_quotes(path)[0] == '"',
        in_quotes(path)[path.len() as int + 1] == '"',
        in_quotes(path).subrange(1, path.len() as int + 1) == path,
{
    assert(in_quotes(path).subrange(1, path.len() as int + 1) =~= path);
}

} // verus!
