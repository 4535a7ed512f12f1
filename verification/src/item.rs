//! Clipboard items, the rows that show them, and the colours they are shown in.

use vstd::prelude::*;

verus! {

// ---------------------------------------------------------------------
// Clipboard formats of the system.
// ---------------------------------------------------------------------
pub const CF_TEXT: u32 = 1;

pub const CF_BITMAP: u32 = 2;

pub const CF_DIB: u32 = 8;

pub const CF_UNICODETEXT: u32 = 13;

pub const CF_HDROP: u32 = 15;

/// The most items that the history keeps, pinned items aside.
pub const MAX_ITEMS: usize = 200;

/// The version of the stored history.
pub const STORAGE_VERSION: u32 = 2;

// ---------------------------------------------------------------------
// Colours, as 0x00BBGGRR.
// ---------------------------------------------------------------------
/// The colours of one theme.
#[derive(Clone, Copy, Debug, PartialEq, Eq, Structural)]
pub struct Palette {
    /// The window and its controls.
    pub bg: u32,
    /// The selected row.
    pub row_sel: u32,
    /// Primary text.
    pub text: u32,
    /// Secondary text, such as ages.
    pub subtext: u32,
    /// The star of a pinned item.
    pub accent: u32,
    /// The star of any other item.
    pub pin_dim: u32,
    /// The search box.
    pub search_bg: u32,
    pub tag_text: u32,
    pub tag_rich: u32,
    pub tag_image: u32,
    pub tag_file: u32,
    pub tag_html: u32,
    pub tag_sheet: u32,
    pub tag_code: u32,
}

/// The colours of the dark theme.
pub open spec fn dark_colors() -> Palette {
    Palette {
        bg: 0x00202020,
        row_sel: 0x003C3C3C,
        text: 0x00F0F0F0,
        subtext: 0x00A0A0A0,
        accent: 0x0015CCFA,
        pin_dim: 0x00606060,
        search_bg: 0x00333333,
        tag_text: 0x00E1D5CB,
        tag_rich: 0x00A5A5FC,
        tag_image: 0x00ACEF86,
        tag_file: 0x004DD3FC,
        tag_html: 0x00FDB5C4,
        tag_sheet: 0x00D4EA5E,
        tag_code: 0x00FDC593,
    }
}

/// The colours of the light theme.
pub open spec fn light_colors() -> Palette {
    Palette {
        bg: 0x00FAFAFA,
        row_sel: 0x00E5E5E5,
        text: 0x00111111,
        subtext: 0x00606060,
        accent: 0x000DA1CA,
        pin_dim: 0x00B0B0B0,
        search_bg: 0x00F1F1F1,
        tag_text: 0x00695447,
        tag_rich: 0x002626DC,
        tag_image: 0x004AA316,
        tag_file: 0x00048ACA,
        tag_html: 0x00ED3A7C,
        tag_sheet: 0x0088940D,
        tag_code: 0x00EB6325,
    }
}

/// The colours of the dark theme.
pub fn dark_palette() -> (r: Palette)
    ensures
        r == dark_colors(),
{
    Palette {
        bg: 0x00202020,
        row_sel: 0x003C3C3C,
        text: 0x00F0F0F0,
        subtext: 0x00A0A0A0,
        accent: 0x0015CCFA,
        pin_dim: 0x00606060,
        search_bg: 0x00333333,
        tag_text: 0x00E1D5CB,
        tag_rich: 0x00A5A5FC,
        tag_image: 0x00ACEF86,
        tag_file: 0x004DD3FC,
        tag_html: 0x00FDB5C4,
        tag_sheet: 0x00D4EA5E,
        tag_code: 0x00FDC593,
    }
}

/// The colours of the light theme.
pub fn light_palette() -> (r: Palette)
    ensures
        r == light_colors(),
{
    Palette {
        bg: 0x00FAFAFA,
        row_sel: 0x00E5E5E5,
        text: 0x00111111,
        subtext: 0x00606060,
        accent: 0x000DA1CA,
        pin_dim: 0x00B0B0B0,
        search_bg: 0x00F1F1F1,
        tag_text: 0x00695447,
        tag_rich: 0x002626DC,
        tag_image: 0x004AA316,
        tag_file: 0x00048ACA,
        tag_html: 0x00ED3A7C,
        tag_sheet: 0x0088940D,
        tag_code: 0x00EB6325,
    }
}

// ---------------------------------------------------------------------
// Kinds of items.
// ---------------------------------------------------------------------
/// What an item holds.
#[derive(Clone, Copy, Debug, PartialEq, Eq, Structural)]
pub enum ItemType {
    Text,
    RichText,
    Image,
    File,
    Html,
    Spreadsheet,
    Code,
}

/// The tag in front of an item of the given kind.
pub open spec fn tag_text(kind: ItemType) -> Seq<char> {
    match kind {
        ItemType::Text => "[T]"@,
        ItemType::RichText => "[R]"@,
        ItemType::Image => "[I]"@,
        ItemType::File => "[F]"@,
        ItemType::Html => "[H]"@,
        ItemType::Spreadsheet => "[X]"@,
        ItemType::Code => "[C]"@,
    }
}

/// The colour of the tag of the given kind.
pub open spec fn color_of(kind: ItemType, pal: Palette) -> u32 {
    match kind {
        ItemType::Text => pal.tag_text,
        ItemType::RichText => pal.tag_rich,
        ItemType::Image => pal.tag_image,
        ItemType::File => pal.tag_file,
        ItemType::Html => pal.tag_html,
        ItemType::Spreadsheet => pal.tag_sheet,
        ItemType::Code => pal.tag_code,
    }
}

impl ItemType {
    /// The tag in front of an item of this kind.
    pub fn tag(&self) -> (r: &'static str)
        ensures
            r@ == tag_text(*self),
    {
        match self {
            ItemType::Text => "[T]",
            ItemType::RichText => "[R]",
            ItemType::Image => "[I]",
            ItemType::File => "[F]",
            ItemType::Html => "[H]",
            ItemType::Spreadsheet => "[X]",
            ItemType::Code => "[C]",
        }
    }

    /// The colour of the tag of this kind.
    pub fn tag_color(&self, pal: &Palette) -> (r: u32)
        ensures
            r == color_of(*self, *pal),
    {
        match self {
            ItemType::Text => pal.tag_text,
            ItemType::RichText => pal.tag_rich,
            ItemType::Image => pal.tag_image,
            ItemType::File => pal.tag_file,
            ItemType::Html => pal.tag_html,
            ItemType::Spreadsheet => pal.tag_sheet,
            ItemType::Code => pal.tag_code,
        }
    }
}

// ---------------------------------------------------------------------
// Items.
// ---------------------------------------------------------------------
/// One captured clipboard content.
#[derive(Clone, Debug)]
pub struct ClipItem {
    pub id: u64,
    pub kind: ItemType,
    /// The payload. Empty for images, whose file is kept apart.
    pub raw: Vec<u8>,
    pub preview: String,
    /// When it was captured, in seconds since 1970.
    pub timestamp: u64,
    pub pinned: bool,
    /// The language hint of a piece of code.
    pub lang: Option<String>,
    /// The fingerprint of the content: of the file for images, of the payload
    /// for everything else.
    pub content_hash: u64,
    /// The name of the image file.
    pub media_file: Option<String>,
    /// The name of the thumbnail file.
    pub thumb_file: Option<String>,
    pub media_w: Option<u32>,
    pub media_h: Option<u32>,
}

/// What an item is, as a mathematical value.
#[verifier::ext_equal]
pub struct ItemView {
    pub id: u64,
    pub kind: ItemType,
    pub raw: Seq<u8>,
    pub preview: Seq<char>,
    pub timestamp: u64,
    pub pinned: bool,
    pub lang: Option<Seq<char>>,
    pub content_hash: u64,
    pub media_file: Option<Seq<char>>,
    pub thumb_file: Option<Seq<char>>,
    pub media_w: Option<u32>,
    pub media_h: Option<u32>,
}

/// The characters of an optional string.
pub open spec fn text_of(t: Option<String>) -> Option<Seq<char>> {
    match t {
        Some(s) => Some(s@),
        None => None,
    }
}

impl View for ClipItem {
    type V = ItemView;

    open spec fn view(&self) -> ItemView {
        ItemView {
            id: self.id,
            kind: self.kind,
            raw: self.raw@,
            preview: self.preview@,
            timestamp: self.timestamp,
            pinned: self.pinned,
            lang: text_of(self.lang),
            content_hash: self.content_hash,
            media_file: text_of(self.media_file),
            thumb_file: text_of(self.thumb_file),
            media_w: self.media_w,
            media_h: self.media_h,
        }
    }
}

/// What the items of a list are.
pub open spec fn views(items: Seq<ClipItem>) -> Seq<ItemView> {
    items.map_values(|i: ClipItem| i@)
}

/// A copy of an optional string.
pub fn copy_text(t: &Option<String>) -> (r: Option<String>)
    ensures
        text_of(r) == text_of(*t),
{
    match t {
        Some(s) => Some(s.clone()),
        None => None,
    }
}

/// A copy of a byte string.
pub fn copy_bytes(b: &Vec<u8>) -> (r: Vec<u8>)
    ensures
        r@ == b@,
{
    let r = b.clone();
    assert(r@ =~= b@);
    r
}

impl ClipItem {
    /// A copy of the item.
    pub fn copy(&self) -> (r: ClipItem)
        ensures
            r@ == self@,
    {
        ClipItem {
            id: self.id,
            kind: self.kind,
            raw: copy_bytes(&self.raw),
            preview: self.preview.clone(),
            timestamp: self.timestamp,
            pinned: self.pinned,
            lang: copy_text(&self.lang),
            content_hash: self.content_hash,
            media_file: copy_text(&self.media_file),
            thumb_file: copy_text(&self.thumb_file),
            media_w: self.media_w,
            media_h: self.media_h,
        }
    }
}

// ---------------------------------------------------------------------
// Registered formats and rows.
// ---------------------------------------------------------------------
/// The numbers that the system gave the formats which have names instead of
/// fixed numbers; zero where it gave none.
#[derive(Clone, Copy, Debug, PartialEq, Eq, Structural)]
pub struct RegFormats {
    pub rtf: u32,
    pub html: u32,
    pub sheet: u32,
}

/// A row of the list: the item that it shows, and where the search matched.
#[derive(Clone, Debug)]
pub struct FilterRow {
    /// The index of the item in the history.
    pub hist_index: usize,
    /// The byte offsets of the matched characters in the preview, in order.
    /// Empty where nothing is searched for.
    pub indices: Vec<usize>,
}

impl View for FilterRow {
    type V = (usize, Seq<usize>);

    open spec fn view(&self) -> (usize, Seq<usize>) {
        (self.hist_index, self.indices@)
    }
}

/// What the rows of a list are.
pub open spec fn row_views(rows: Seq<FilterRow>) -> Seq<(usize, Seq<usize>)> {
    rows.map_values(|r: FilterRow| r@)
}

// ---------------------------------------------------------------------
// Laws.
// ---------------------------------------------------------------------
/// The colour with the given amounts of red, green and blue.
pub open spec fn rgb(r: int, g: int, b: int) -> int {
    r + 256 * g + 65536 * b
}

/// The colours of the dark theme, by their red, green and blue.
pub proof fn law_dark_theme()
    ensures
        dark_colors().bg == rgb(32, 32, 32),
        dark_colors().row_sel == rgb(60, 60, 60),
        dark_colors().text == rgb(240, 240, 240),
        dark_colors().subtext == rgb(160, 160, 160),
        dark_colors().accent == rgb(250, 204, 21),
        dark_colors().pin_dim == rgb(96, 96, 96),
        dark_colors().search_bg == rgb(51, 51, 51),
        dark_colors().tag_text == rgb(203, 213, 225),
        dark_colors().tag_rich == rgb(252, 165, 165),
        dark_colors().tag_image == rgb(134, 239, 172),
        dark_colors().tag_file == rgb(252, 211, 77),
        dark_colors().tag_html == rgb(196, 181, 253),
        dark_colors().tag_sheet == rgb(94, 234, 212),
        dark_colors().tag_code == rgb(147, 197, 253),
{
}

/// The colours of the light theme, by their red, green and blue.
pub proof fn law_light_theme()
    ensures
        light_colors().bg == rgb(250, 250, 250),
        light_colors().row_sel == rgb(229, 229, 229),
        light_colors().text == rgb(17, 17, 17),
        light_colors().subtext == rgb(96, 96, 96),
        light_colors().accent == rgb(202, 161, 13),
        light_colors().pin_dim == rgb(176, 176, 176),
        light_colors().search_bg == rgb(241, 241, 241),
        light_colors().tag_text == rgb(71, 84, 105),
        light_colors().tag_rich == rgb(220, 38, 38),
        light_colors().tag_image == rgb(22, 163, 74),
        light_colors().tag_file == rgb(202, 138, 4),
        light_colors().tag_html == rgb(124, 58, 237),
        light_colors().tag_sheet == rgb(13, 148, 136),
        light_colors().tag_code == rgb(37, 99, 235),
{
}

/// The colour of a tag is the one that the theme has for its kind.
pub proof fn law_tag_colors(pal: Palette)
    ensures
        color_of(ItemType::Text, pal) == pal.tag_text,
        color_of(ItemType::RichText, pal) == pal.tag_rich,
        color_of(ItemType::Image, pal) == pal.tag_image,
        color_of(ItemType::File, pal) == pal.tag_file,
        color_of(ItemType::Html, pal) == pal.tag_html,
        color_of(ItemType::Spreadsheet, pal) == pal.tag_sheet,
        color_of(ItemType::Code, pal) == pal.tag_code,
{
}

/// Every kind has a tag of its own: its letter in brackets.
pub proof fn law_tags_differ(a: ItemType, b: ItemType)
    ensures
        tag_text(a).len() == 3,
        tag_text(a)[0] == '[',
        tag_text(a)[2] == ']',
        tag_text(a) == tag_text(b) ==> a == b,
        tag_text(ItemType::Text)[1] == 'T',
        tag_text(ItemType::RichText)[1] == 'R',
        tag_text(ItemType::Image)[1] == 'I',
        tag_text(ItemType::File)[1] == 'F',
        tag_text(ItemType::Html)[1] == 'H',
        tag_text(ItemType::Spreadsheet)[1] == 'X',
        tag_text(ItemType::Code)[1] == 'C',
{
    reveal_strlit("[T]");
    reveal_strlit("[R]");
    reveal_strlit("[I]");
    reveal_strlit("[F]");
    reveal_strlit("[H]");
    reveal_strlit("[X]");
    reveal_strlit("[C]");
    if a != b {
        assert(tag_text(a)[1] != tag_text(b)[1]);
    }
}

/// What an item is tells each of its fields, and nothing else does.
pub proof fn law_item_is_its_fields(item: ClipItem, items: Seq<ClipItem>, i: int)
    requires
        0 <= i < items.len(),
    ensures
        item@.id == item.id && item@.kind == item.kind && item@.raw == item.raw@,
        item@.preview == item.preview@ && item@.timestamp == item.timestamp,
        item@.pinned == item.pinned && item@.content_hash == item.content_hash,
        item@.lang is Some == item.lang is Some,
        item.lang matches Some(t) ==> item@.lang == Some(t@),
        item@.media_file is Some == item.media_file is Some,
        item.media_file matches Some(t) ==> item@.media_file == Some(t@),
        item@.thumb_file is Some == item.thumb_file is Some,
        item.thumb_file matches Some(t) ==> item@.thumb_file == Some(t@),
        item@.media_w == item.media_w && item@.media_h == item.media_h,
        views(items).len() == items.len(),
        views(items)[i] == items[i]@,
{
}

/// What a row is tells its item and its marks.
pub proof fn law_row_is_its_fields(row: FilterRow, rows: Seq<FilterRow>, i: int)
    requires
        0 <= i < rows.len(),
    ensures
        row@ == (row.hist_index, row.indices@),
        row_views(rows).len() == rows.len(),
        row_views(rows)[i] == rows[i]@,
{
}

} // verus!
