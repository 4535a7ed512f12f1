//! The history as it is stored.

use vstd::prelude::*;

use crate::b64::{decode_base64, encode_base64};
use crate::b64::{base64_fits, base64_text, law_base64_injective};
use crate::item::{copy_text, ClipItem, ItemType, STORAGE_VERSION};
use crate::item::{text_of, views, ItemView};
use crate::text::{push_decimal, same_text};
use crate::text::{decimal, digit_char};

verus! {

// ---------------------------------------------------------------------
// Stored items.
// ---------------------------------------------------------------------
/// An item as it is stored: the payload as base64, the kind by name.
#[derive(Clone, Debug)]
pub struct StoredItem {
    pub id: u64,
    pub kind: String,
    /// Empty for images, whose file is kept apart.
    pub content_b64: String,
    pub preview: String,
    pub ts: u64,
    pub pinned: bool,
    pub lang: Option<String>,
    pub content_hash: u64,
    pub media_file: Option<String>,
    pub thumb_file: Option<String>,
    pub media_w: Option<u32>,
    pub media_h: Option<u32>,
}

/// A stored item as a mathematical value.
#[verifier::ext_equal]
pub struct StoredView {
    pub id: u64,
    pub kind: Seq<char>,
    pub content_b64: Seq<char>,
    pub preview: Seq<char>,
    pub ts: u64,
    pub pinned: bool,
    pub lang: Option<Seq<char>>,
    pub content_hash: u64,
    pub media_file: Option<Seq<char>>,
    pub thumb_file: Option<Seq<char>>,
    pub media_w: Option<u32>,
    pub media_h: Option<u32>,
}

impl View for StoredItem {
    type V = StoredView;

    open spec fn view(&self) -> StoredView {
        StoredView {
            id: self.id,
            kind: self.kind@,
            content_b64: self.content_b64@,
            preview: self.preview@,
            ts: self.ts,
            pinned: self.pinned,
            lang: text_of(self.lang),
            content_hash: self.content_hash,
            media_file: text_of(self.media_file),
            thumb_file: text_of(self.thumb_file),
            media_w: self.media_w,
            media_h: self.media_h,
        }
    }
}

/// What the stored items of a list are.
pub open spec fn stored_views(items: Seq<StoredItem>) -> Seq<StoredView> {
    items.map_values(|i: StoredItem| i@)
}

/// The name that a kind is stored under.
pub open spec fn kind_name(k: ItemType) -> Seq<char> {
    match k {
        ItemType::Text => "text"@,
        ItemType::RichText => "richtext"@,
        ItemType::Image => "image"@,
        ItemType::File => "file"@,
        ItemType::Html => "html"@,
        ItemType::Spreadsheet => "spreadsheet"@,
        ItemType::Code => "code"@,
    }
}

/// The kind that is stored under a name.
pub open spec fn named_kind(s: Seq<char>) -> Option<ItemType> {
    if s == "text"@ {
        Some(ItemType::Text)
    } else if s == "richtext"@ {
        Some(ItemType::RichText)
    } else if s == "image"@ {
        Some(ItemType::Image)
    } else if s == "file"@ {
        Some(ItemType::File)
    } else if s == "html"@ {
        Some(ItemType::Html)
    } else if s == "spreadsheet"@ {
        Some(ItemType::Spreadsheet)
    } else if s == "code"@ {
        Some(ItemType::Code)
    } else {
        None
    }
}

/// The name that a kind is stored under.
pub fn kind_str(k: &ItemType) -> (r: &'static str)
    ensures
        r@ == kind_name(*k),
{
    match k {
        ItemType::Text => "text",
        ItemType::RichText => "richtext",
        ItemType::Image => "image",
        ItemType::File => "file",
        ItemType::Html => "html",
        ItemType::Spreadsheet => "spreadsheet",
        ItemType::Code => "code",
    }
}

/// The kind that is stored under a name.
pub fn str_kind(s: &str) -> (r: Option<ItemType>)
    ensures
        r == named_kind(s@),
{
    if same_text(s, "text") {
        Some(ItemType::Text)
    } else if same_text(s, "richtext") {
        Some(ItemType::RichText)
    } else if same_text(s, "image") {
        Some(ItemType::Image)
    } else if same_text(s, "file") {
        Some(ItemType::File)
    } else if same_text(s, "html") {
        Some(ItemType::Html)
    } else if same_text(s, "spreadsheet") {
        Some(ItemType::Spreadsheet)
    } else if same_text(s, "code") {
        Some(ItemType::Code)
    } else {
        None
    }
}

/// A kind is read back from the name that it is stored under.
pub proof fn law_kind_round_trip(k: ItemType)
    ensures
        named_kind(kind_name(k)) == Some(k),
{
    reveal_strlit("text");
    reveal_strlit("richtext");
    reveal_strlit("image");
    reveal_strlit("file");
    reveal_strlit("html");
    reveal_strlit("spreadsheet");
    reveal_strlit("code");
    assert("text"@[0] == 't');
    assert("file"@[0] == 'f');
    assert("html"@[0] == 'h');
    assert("code"@[0] == 'c');
    assert("richtext"@.len() == 8);
    assert("spreadsheet"@.len() == 11);
    assert("image"@.len() == 5);
}

/// The bytes that a text is the base64 text of.
pub open spec fn base64_bytes(text: Seq<char>) -> Option<Seq<u8>> {
    if exists|d: Seq<u8>| #[trigger] base64_text(d) == text {
        Some(choose|d: Seq<u8>| #[trigger] base64_text(d) == text)
    } else {
        None
    }
}

/// Base64 reads back what it wrote.
pub proof fn law_base64_round_trip(d: Seq<u8>)
    ensures
        base64_bytes(base64_text(d)) == Some(d),
{
    let text = base64_text(d);
    let e = choose|e: Seq<u8>| #[trigger] base64_text(e) == text;
    law_base64_injective(d, e);
}

/// An item as it is stored.
pub open spec fn stored_form(c: ItemView) -> StoredView {
    StoredView {
        id: c.id,
        kind: kind_name(c.kind),
        content_b64: if c.kind == ItemType::Image {
            seq![]
        } else {
            base64_text(c.raw)
        },
        preview: c.preview,
        ts: c.timestamp,
        pinned: c.pinned,
        lang: c.lang,
        content_hash: c.content_hash,
        media_file: c.media_file,
        thumb_file: c.thumb_file,
        media_w: c.media_w,
        media_h: c.media_h,
    }
}

/// The item that is stored; `None` for a kind that does not exist or a payload
/// that is no base64.
pub open spec fn restored_form(s: StoredView) -> Option<ItemView> {
    match named_kind(s.kind) {
        None => None,
        Some(kind) => {
            let raw: Option<Seq<u8>> = if kind == ItemType::Image {
                Some(seq![])
            } else {
                base64_bytes(s.content_b64)
            };
            match raw {
                None => None,
                Some(raw) => Some(
                    ItemView {
                        id: s.id,
                        kind,
                        raw,
                        preview: s.preview,
                        timestamp: s.ts,
                        pinned: s.pinned,
                        lang: s.lang,
                        content_hash: s.content_hash,
                        media_file: s.media_file,
                        thumb_file: s.thumb_file,
                        media_w: s.media_w,
                        media_h: s.media_h,
                    },
                ),
            }
        },
    }
}

/// Whether the stored form of an item fits in memory. The payload of an image
/// is not part of it.
pub open spec fn can_store(c: ItemView) -> bool {
    c.kind != ItemType::Image ==> base64_fits(c.raw.len())
}

/// The form in which an item is stored.
pub fn item_to_stored(c: &ClipItem) -> (r: StoredItem)
    requires
        can_store(c@),
    ensures
        r@ == stored_form(c@),
{
    let content_b64 = if c.kind == ItemType::Image {
        String::new()
    } else {
        encode_base64(c.raw.as_slice())
    };
    assert(content_b64@ =~= stored_form(c@).content_b64);
    StoredItem {
        id: c.id,
        kind: kind_str(&c.kind).to_owned(),
        content_b64,
        preview: c.preview.clone(),
        ts: c.timestamp,
        pinned: c.pinned,
        lang: copy_text(&c.lang),
        content_hash: c.content_hash,
        media_file: copy_text(&c.media_file),
        thumb_file: copy_text(&c.thumb_file),
        media_w: c.media_w,
        media_h: c.media_h,
    }
}

/// The item that is stored.
pub fn stored_to_item(s: &StoredItem) -> (r: Option<ClipItem>)
    ensures
        r is Some == restored_form(s@) is Some,
        r matches Some(c) ==> restored_form(s@) == Some(c@),
{
    let kind = match str_kind(s.kind.as_str()) {
        Some(kind) => kind,
        None => {
            return None;
        },
    };
    let raw: Vec<u8> = if kind == ItemType::Image {
        let none: Vec<u8> = Vec::new();
        assert(none@ =~= seq![]);
        none
    } else {
        match decode_base64(s.content_b64.as_str()) {
            Some(raw) => {
                proof {
                    law_base64_round_trip(raw@);
                }
                raw
            },
            None => {
                return None;
            },
        }
    };
    Some(
        ClipItem {
            id: s.id,
            kind,
            raw,
            preview: s.preview.clone(),
            timestamp: s.ts,
            pinned: s.pinned,
            lang: copy_text(&s.lang),
            content_hash: s.content_hash,
            media_file: copy_text(&s.media_file),
            thumb_file: copy_text(&s.thumb_file),
            media_w: s.media_w,
            media_h: s.media_h,
        },
    )
}

/// An item whose payload is stored where it belongs: images carry none.
pub open spec fn storable(c: ItemView) -> bool {
    c.kind == ItemType::Image ==> c.raw.len() == 0
}

/// A stored item is restored as it was.
pub proof fn law_item_round_trip(c: ItemView)
    requires
        storable(c),
    ensures
        restored_form(stored_form(c)) == Some(c),
{
    law_kind_round_trip(c.kind);
    law_base64_round_trip(c.raw);
    let back = restored_form(stored_form(c))->0;
    assert(back.raw =~= c.raw);
    assert(back =~= c);
}

// ---------------------------------------------------------------------
// The stored history.
// ---------------------------------------------------------------------
/// The item that is loaded from a stored one. An image whose file is gone is
/// not loaded: there is nothing to show or to paste.
pub open spec fn loaded_item(s: StoredView, media_present: bool) -> Option<ItemView> {
    match restored_form(s) {
        None => None,
        Some(c) => if c.kind == ItemType::Image && !(c.media_file is Some && media_present) {
            None
        } else {
            Some(c)
        },
    }
}

/// The items that are loaded, in order.
pub open spec fn loaded(stored: Seq<StoredView>, present: Seq<bool>) -> Seq<ItemView>
    decreases stored.len(),
{
    if stored.len() == 0 {
        seq![]
    } else {
        let before = loaded(stored.drop_last(), present);
        match loaded_item(stored.last(), present[stored.len() - 1]) {
            Some(c) => before.push(c),
            None => before,
        }
    }
}

/// The largest id, zero where there is none.
pub open spec fn max_id(items: Seq<ItemView>) -> u64
    decreases items.len(),
{
    if items.len() == 0 {
        0
    } else {
        let before = max_id(items.drop_last());
        if items.last().id > before {
            items.last().id
        } else {
            before
        }
    }
}

/// The items that are loaded. Stored items of another version are not read.
/// `media_present` says of each stored item whether its image file is there.
pub fn load_items(version: u32, stored: &Vec<StoredItem>, media_present: &Vec<bool>) -> (r: Vec<
    ClipItem,
>)
    requires
        media_present@.len() == stored@.len(),
    ensures
        version != STORAGE_VERSION ==> r@.len() == 0,
        version == STORAGE_VERSION ==> views(r@) == loaded(
            stored_views(stored@),
            media_present@,
        ),
{
    let mut items: Vec<ClipItem> = Vec::new();
    if version != STORAGE_VERSION {
        return items;
    }
    let ghost all = stored_views(stored@);
    let mut i: usize = 0;
    assert(views(items@) =~= loaded(all.take(0), media_present@));
    while i < stored.len()
        invariant
            i <= stored@.len(),
            all == stored_views(stored@),
            media_present@.len() == stored@.len(),
            views(items@) == loaded(all.take(i as int), media_present@),
        decreases stored@.len() - i,
    {
        let ghost before = views(items@);
        assert(all.take(i + 1).drop_last() =~= all.take(i as int));
        assert(all.take(i + 1).last() == stored@[i as int]@);
        if let Some(c) = stored_to_item(&stored[i]) {
            if c.kind != ItemType::Image || (c.media_file.is_some() && media_present[i]) {
                let ghost added = c@;
                items.push(c);
                assert(views(items@) =~= before.push(added));
            }
        }
        i += 1;
    }
    assert(all.take(all.len() as int) =~= all);
    items
}

/// The next free id: one more than the largest.
pub fn next_free_id(items: &Vec<ClipItem>) -> (r: u64)
    requires
        max_id(views(items@)) < u64::MAX,
    ensures
        r == max_id(views(items@)) + 1,
{
    let ghost all = views(items@);
    let mut most: u64 = 0;
    let mut i: usize = 0;
    assert(all.take(0) =~= seq![]);
    while i < items.len()
        invariant
            i <= items@.len(),
            all == views(items@),
            most == max_id(all.take(i as int)),
        decreases items@.len() - i,
    {
        assert(all.take(i + 1).drop_last() =~= all.take(i as int));
        assert(all.take(i + 1).last() == items@[i as int]@);
        if items[i].id > most {
            most = items[i].id;
        }
        i += 1;
    }
    assert(all.take(all.len() as int) =~= all);
    most + 1
}

/// The history that is loaded from stored items, and the next free id. Stored
/// items of another version are not read. `media_present` says of each stored
/// item whether its image file is there.
pub fn load_history(version: u32, stored: &Vec<StoredItem>, media_present: &Vec<bool>) -> (r: (
    Vec<ClipItem>,
    u64,
))
    requires
        media_present@.len() == stored@.len(),
        version == STORAGE_VERSION ==> max_id(loaded(stored_views(stored@), media_present@))
            < u64::MAX,
    ensures
        version != STORAGE_VERSION ==> r.0@.len() == 0 && r.1 == 1,
        version == STORAGE_VERSION ==> {
            &&& views(r.0@) == loaded(stored_views(stored@), media_present@)
            &&& r.1 == max_id(views(r.0@)) + 1
        },
{
    let items = load_items(version, stored, media_present);
    let next: u64 = next_free_id(&items);
    (items, next)
}

/// The history as it is stored.
pub open spec fn stored_history(items: Seq<ItemView>) -> Seq<StoredView> {
    items.map_values(|c: ItemView| stored_form(c))
}

/// The version and the items to store for a history.
pub fn history_to_store(items: &Vec<ClipItem>) -> (r: (u32, Vec<StoredItem>))
    requires
        forall|i: int| 0 <= i < items@.len() ==> can_store((#[trigger] items@[i])@),
    ensures
        r.0 == STORAGE_VERSION,
        stored_views(r.1@) == stored_history(views(items@)),
{
    let mut out: Vec<StoredItem> = Vec::new();
    let mut i: usize = 0;
    while i < items.len()
        invariant
            i <= items@.len(),
            forall|k: int| 0 <= k < items@.len() ==> can_store((#[trigger] items@[k])@),
            out@.len() == i,
            forall|k: int| 0 <= k < i ==> (#[trigger] out@[k])@ == stored_form(items@[k]@),
        decreases items@.len() - i,
    {
        out.push(item_to_stored(&items[i]));
        i += 1;
    }
    assert(stored_views(out@) =~= stored_history(views(items@)));
    (STORAGE_VERSION, out)
}

/// Every id in a history that was loaded is below the next free id.
pub proof fn law_next_id_is_free(items: Seq<ItemView>, i: int)
    requires
        0 <= i < items.len(),
    ensures
        items[i].id <= max_id(items),
    decreases items.len(),
{
    if i < items.len() - 1 {
        law_next_id_is_free(items.drop_last(), i);
        assert(items.drop_last()[i] == items[i]);
    }
}

/// A history that is stored is loaded as it was, as long as the files of its
/// images are there.
pub proof fn law_history_round_trip(items: Seq<ItemView>, present: Seq<bool>)
    requires
        present.len() >= items.len(),
        forall|i: int| 0 <= i < items.len() ==> storable(#[trigger] items[i]),
        forall|i: int|
            0 <= i < items.len() && (#[trigger] items[i]).kind == ItemType::Image
                ==> items[i].media_file is Some && present[i],
    ensures
        loaded(stored_history(items), present) == items,
    decreases items.len(),
{
    if items.len() > 0 {
        let n = items.len() - 1;
        let rest = items.drop_last();
        assert forall|i: int| 0 <= i < rest.len() implies storable(#[trigger] rest[i]) by {
            assert(rest[i] == items[i]);
        }
        assert forall|i: int|
            0 <= i < rest.len() && (#[trigger] rest[i]).kind == ItemType::Image implies rest[i].media_file is Some
            && present[i] by {
            assert(rest[i] == items[i]);
        }
        law_history_round_trip(rest, present);
        assert(stored_history(items).drop_last() =~= stored_history(rest));
        assert(storable(items[n]));
        law_item_round_trip(items.last());
        assert(loaded_item(stored_history(items).last(), present[n]) == Some(items.last()));
        assert(rest.push(items.last()) =~= items);
    } else {
        assert(loaded(stored_history(items), present) =~= items);
    }
}

// ---------------------------------------------------------------------
// Image files.
// ---------------------------------------------------------------------
/// The names of the image file and the thumbnail file of the item `id`.
pub open spec fn media_file_names(id: nat) -> (Seq<char>, Seq<char>) {
    (decimal(id) + ".png"@, decimal(id) + "_thumb.png"@)
}

/// The names of the image file and the thumbnail file of the item `id`.
pub fn media_filenames(id: u64) -> (r: (String, String))
    ensures
        (r.0@, r.1@) == media_file_names(id as nat),
{
    let mut full = String::new();
    push_decimal(&mut full, id as u128);
    let mut thumb = full.clone();
    full.append(".png");
    thumb.append("_thumb.png");
    assert(full@ =~= media_file_names(id as nat).0);
    assert(thumb@ =~= media_file_names(id as nat).1);
    (full, thumb)
}

/// Different numbers are written differently.
proof fn lemma_decimal_injective(a: nat, b: nat)
    requires
        decimal(a) == decimal(b),
    ensures
        a == b,
    decreases a,
{
    assert(decimal(a).last() == digit_char(a % 10));
    assert(decimal(b).last() == digit_char(b % 10));
    assert(a % 10 == b % 10) by {
        assert(digit_char(a % 10) as u32 == 48 + a % 10);
        assert(digit_char(b % 10) as u32 == 48 + b % 10);
    }
    lemma_decimal_nonempty(a / 10);
    lemma_decimal_nonempty(b / 10);
    if a >= 10 {
        assert(decimal(a).len() > 1);
        assert(b >= 10);
        assert(decimal(a).drop_last() =~= decimal(a / 10));
        assert(decimal(b).drop_last() =~= decimal(b / 10));
        lemma_decimal_injective(a / 10, b / 10);
    }
}

proof fn lemma_decimal_nonempty(n: nat)
    ensures
        decimal(n).len() > 0,
{
}

/// Every item has files of its own.
pub proof fn law_media_names_differ(a: nat, b: nat)
    ensures
        media_file_names(a).0 != media_file_names(b).1,
        a != b ==> media_file_names(a).0 != media_file_names(b).0,
        a != b ==> media_file_names(a).1 != media_file_names(b).1,
{
    reveal_strlit(".png");
    reveal_strlit("_thumb.png");
    let fa = media_file_names(a).0;
    let fb = media_file_names(b).0;
    let ta = media_file_names(a).1;
    let tb = media_file_names(b).1;
    lemma_decimal_nonempty(a);
    lemma_decimal_nonempty(b);
    if fa == tb {
        assert(fa[fa.len() - 5] == decimal(a).last());
        assert(tb[tb.len() - 5] == 'b');
        assert(decimal(a).last() == digit_char(a % 10));
        assert(digit_char(a % 10) as u32 == 48 + a % 10);
    }
    if fa == fb {
        assert(fa.take(fa.len() - 4) =~= decimal(a));
        assert(fb.take(fb.len() - 4) =~= decimal(b));
        lemma_decimal_injective(a, b);
    }
    if ta == tb {
        assert(ta.take(ta.len() - 10) =~= decimal(a));
        assert(tb.take(tb.len() - 10) =~= decimal(b));
        lemma_decimal_injective(a, b);
    }
}

/// Whether the files of an item are named after its id.
pub open spec fn has_own_files(c: ItemView) -> bool {
    let names = media_file_names(c.id as nat);
    &&& c.media_file matches Some(name) ==> name == names.0
    &&& c.thumb_file matches Some(name) ==> name == names.1
}

/// Items with different ids share no file, so deleting the files of one leaves
/// those of the other.
pub proof fn law_files_are_not_shared(a: ItemView, b: ItemView, j: int, k: int)
    requires
        a.id != b.id,
        has_own_files(a),
        has_own_files(b),
        0 <= j < crate::history::media_names(a).len(),
        0 <= k < crate::history::media_names(b).len(),
    ensures
        crate::history::media_names(a)[j] != crate::history::media_names(b)[k],
{
    law_media_names_differ(a.id as nat, b.id as nat);
    law_media_names_differ(b.id as nat, a.id as nat);
}

/// Whether an item of the history needs the file `name`.
pub open spec fn is_referenced(items: Seq<ItemView>, name: Seq<char>) -> bool {
    exists|i: int|
        0 <= i < items.len() && ((#[trigger] items[i]).media_file == Some(name)
            || items[i].thumb_file == Some(name))
}

/// Whether `name` is the text of `t`.
fn names(t: &Option<String>, name: &str) -> (r: bool)
    ensures
        r == (text_of(*t) == Some(name@)),
{
    match t {
        Some(s) => same_text(s.as_str(), name),
        None => false,
    }
}

/// Whether no item of the history needs the file `name`, so that it can be
/// deleted.
pub fn is_orphan(items: &Vec<ClipItem>, name: &str) -> (r: bool)
    ensures
        r == !is_referenced(views(items@), name@),
{
    let mut i: usize = 0;
    while i < items.len()
        invariant
            i <= items@.len(),
            forall|k: int|
                0 <= k < i ==> (#[trigger] views(items@)[k]).media_file != Some(name@) && views(
                    items@,
                )[k].thumb_file != Some(name@),
        decreases items@.len() - i,
    {
        let item: &ClipItem = &items[i];
        assert(views(items@)[i as int] == item@);
        if names(&item.media_file, name) || names(&item.thumb_file, name) {
            return false;
        }
        i += 1;
    }
    true
}

/// No file that backs an item of the history is an orphan.
pub proof fn law_media_is_no_orphan(items: Seq<ItemView>, i: int, k: int)
    requires
        0 <= i < items.len(),
        0 <= k < crate::history::media_names(items[i]).len(),
    ensures
        is_referenced(items, crate::history::media_names(items[i])[k]),
{
    let name = crate::history::media_names(items[i])[k];
    assert(items[i].media_file == Some(name) || items[i].thumb_file == Some(name));
}

// ---------------------------------------------------------------------
// The stored form, field by field.
// ---------------------------------------------------------------------
/// The version that is stored, and the names of the kinds in it. No other name
/// is the name of a kind.
pub proof fn law_stored_names(s: Seq<char>)
    ensures
        STORAGE_VERSION == 2,
        kind_name(ItemType::Text) == "text"@,
        kind_name(ItemType::RichText) == "richtext"@,
        kind_name(ItemType::Image) == "image"@,
        kind_name(ItemType::File) == "file"@,
        kind_name(ItemType::Html) == "html"@,
        kind_name(ItemType::Spreadsheet) == "spreadsheet"@,
        kind_name(ItemType::Code) == "code"@,
        named_kind(s) matches Some(k) ==> s == kind_name(k),
        s != "text"@ && s != "richtext"@ && s != "image"@ && s != "file"@ && s != "html"@ && s
            != "spreadsheet"@ && s != "code"@ ==> named_kind(s) is None,
{
}

/// Every field of an item is stored as it is, the payload in Base64; images
/// store none.
pub proof fn law_stored_fields(c: ItemView)
    ensures
        ({
            let s = stored_form(c);
            &&& s.id == c.id && s.preview == c.preview && s.ts == c.timestamp
            &&& s.pinned == c.pinned && s.lang == c.lang && s.content_hash == c.content_hash
            &&& s.media_file == c.media_file && s.thumb_file == c.thumb_file
            &&& s.media_w == c.media_w && s.media_h == c.media_h
            &&& s.kind == kind_name(c.kind)
            &&& c.kind != ItemType::Image ==> s.content_b64 == base64_text(c.raw)
            &&& c.kind == ItemType::Image ==> s.content_b64.len() == 0
        }),
{
}

/// A stored item of a known kind comes back with all of its fields where its
/// payload is Base64, and an image whatever stands in place of one. Anything
/// else is dropped.
pub proof fn law_restored_fields(s: StoredView, raw: Seq<u8>)
    ensures
        named_kind(s.kind) is None ==> restored_form(s) is None,
        named_kind(s.kind) matches Some(k) ==> {
            &&& k == ItemType::Image ==> restored_form(s) is Some && restored_form(s)->0.raw.len()
                == 0
            &&& k != ItemType::Image && s.content_b64 == base64_text(raw) ==> restored_form(
                s,
            ) is Some && restored_form(s)->0.raw == raw
            &&& k != ItemType::Image && (forall|d: Seq<u8>| #[trigger]
                base64_text(d) != s.content_b64) ==> restored_form(s) is None
            &&& restored_form(s) matches Some(c) ==> c.kind == k
        },
        restored_form(s) matches Some(c) ==> {
            &&& c.id == s.id && c.preview == s.preview && c.timestamp == s.ts
            &&& c.pinned == s.pinned && c.lang == s.lang && c.content_hash == s.content_hash
            &&& c.media_file == s.media_file && c.thumb_file == s.thumb_file
            &&& c.media_w == s.media_w && c.media_h == s.media_h
        },
{
    law_base64_round_trip(raw);
}

/// Loading keeps the items that come back, in their order; an image only where
/// it names a file and the file is there.
pub proof fn law_loading(stored: Seq<StoredView>, s: StoredView, present: Seq<bool>)
    requires
        present.len() == stored.len() + 1,
    ensures
        loaded(seq![], present) == Seq::<ItemView>::empty(),
        restored_form(s) is None ==> loaded(stored.push(s), present) == loaded(stored, present),
        restored_form(s) matches Some(c) ==> {
            &&& c.kind != ItemType::Image || (s.media_file is Some && present.last()) ==> loaded(
                stored.push(s),
                present,
            ) == loaded(stored, present).push(c)
            &&& c.kind == ItemType::Image && (s.media_file is None || !present.last()) ==> loaded(
                stored.push(s),
                present,
            ) == loaded(stored, present)
        },
{
    assert(stored.push(s).drop_last() =~= stored);
    assert(loaded(seq![], present) =~= Seq::<ItemView>::empty());
}

/// The highest id is that of an item, or zero where there is none.
pub proof fn law_highest_id(items: Seq<ItemView>)
    ensures
        items.len() == 0 ==> max_id(items) == 0,
        max_id(items) > 0 ==> exists|i: int|
            0 <= i < items.len() && (#[trigger] items[i]).id == max_id(items),
    decreases items.len(),
{
    if items.len() > 0 {
        let before = items.drop_last();
        law_highest_id(before);
        if items.last().id > max_id(before) {
            assert(items[items.len() - 1] == items.last());
        } else if max_id(items) > 0 {
            let i = choose|i: int|
                0 <= i < before.len() && (#[trigger] before[i]).id == max_id(before);
            assert(items[i] == before[i]);
        }
    }
}

/// The files of an image are named after its id.
pub proof fn law_media_file_names(id: nat)
    ensures
        media_file_names(id).0 == decimal(id) + ".png"@,
        media_file_names(id).1 == decimal(id) + "_thumb.png"@,
{
}

/// A file is needed exactly where it is the image or the thumbnail of an item.
pub proof fn law_needed_files(items: Seq<ItemView>, name: Seq<char>)
    ensures
        is_referenced(items, name) == exists|i: int|
            0 <= i < items.len() && crate::history::media_names(#[trigger] items[i]).contains(name),
{
    if is_referenced(items, name) {
        let i = choose|i: int|
            0 <= i < items.len() && ((#[trigger] items[i]).media_file == Some(name)
                || items[i].thumb_file == Some(name));
        let names = crate::history::media_names(items[i]);
        if items[i].media_file == Some(name) {
            assert(names[0] == name);
        } else {
            assert(names[names.len() - 1] == name);
        }
    }
    if exists|i: int|
        0 <= i < items.len() && crate::history::media_names(#[trigger] items[i]).contains(name) {
        let i = choose|i: int|
            0 <= i < items.len() && crate::history::media_names(#[trigger] items[i]).contains(name);
        let names = crate::history::media_names(items[i]);
        let k = choose|k: int| 0 <= k < names.len() && names[k] == name;
        law_media_is_no_orphan(items, i, k);
    }
}

/// A stored item is its fields.
pub proof fn law_stored_item_is_its_fields(s: StoredItem, items: Seq<StoredItem>, i: int)
    requires
        0 <= i < items.len(),
    ensures
        s@.id == s.id && s@.kind == s.kind@ && s@.content_b64 == s.content_b64@,
        s@.preview == s.preview@ && s@.ts == s.ts && s@.pinned == s.pinned,
        s@.content_hash == s.content_hash,
        s@.lang == text_of(s.lang) && s@.media_file == text_of(s.media_file),
        s@.thumb_file == text_of(s.thumb_file) && s@.media_w == s.media_w,
        s@.media_h == s.media_h,
        stored_views(items).len() == items.len() && stored_views(items)[i] == items[i]@,
{
}

/// Storing keeps all items, in their order.
pub proof fn law_all_items_are_stored(items: Seq<ItemView>, i: int)
    requires
        0 <= i < items.len(),
    ensures
        stored_history(items).len() == items.len(),
        stored_history(items)[i] == stored_form(items[i]),
{
}

} // verus!
