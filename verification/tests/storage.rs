use clippet::b64::encodable;
use clippet::history::{clear_items, delete_item, holds_id, media_of, pinned_count, prune_history, push_item, toggle_pin};
use clippet::item::{dark_palette, light_palette, ClipItem, ItemType};
use clippet::storage::{history_to_store, is_orphan, item_to_stored, kind_str, load_history, load_items, media_filenames, next_free_id, stored_to_item, str_kind, StoredItem};

fn clip(id: u64, kind: ItemType, raw: &[u8]) -> ClipItem {
    ClipItem {
        id,
        kind,
        raw: raw.to_vec(),
        preview: format!("item {}", id),
        timestamp: 1000 + id,
        pinned: false,
        lang: None,
        content_hash: clippet::hash::fnv1a_64(raw),
        media_file: None,
        thumb_file: None,
        media_w: None,
        media_h: None,
    }
}

fn text(id: u64) -> ClipItem {
    clip(id, ItemType::Text, format!("text {}", id).as_bytes())
}

const KINDS: [ItemType; 7] = [
    ItemType::Text,
    ItemType::RichText,
    ItemType::Image,
    ItemType::File,
    ItemType::Html,
    ItemType::Spreadsheet,
    ItemType::Code,
];

#[test]
fn kinds_have_names_and_tags() {
    let names = ["text", "richtext", "image", "file", "html", "spreadsheet", "code"];
    let tags = ["[T]", "[R]", "[I]", "[F]", "[H]", "[X]", "[C]"];
    for i in 0..7 {
        assert_eq!(kind_str(&KINDS[i]), names[i]);
        assert_eq!(str_kind(names[i]), Some(KINDS[i]));
        assert_eq!(KINDS[i].tag(), tags[i]);
    }
    assert_eq!(str_kind("Text"), None);
    assert_eq!(str_kind(""), None);
}

#[test]
fn tags_have_colors() {
    let d = dark_palette();
    assert_eq!(ItemType::Text.tag_color(&d), 0x00E1D5CB);
    assert_eq!(ItemType::Image.tag_color(&d), 0x00ACEF86);
    let l = light_palette();
    assert_eq!(ItemType::Code.tag_color(&l), 0x00EB6325);
    assert_eq!(l.bg, 0x00FAFAFA);
    assert_eq!(d.bg, 0x00202020);
}

#[test]
fn stored_payload_is_base64() {
    let mut c = clip(7, ItemType::Code, b"fn x() {}\n\xff");
    c.lang = Some("rs".to_string());
    c.pinned = true;
    let s = item_to_stored(&c);
    assert_eq!(s.content_b64, "Zm4geCgpIHt9Cv8=");
    assert_eq!(s.kind, "code");
    assert_eq!(s.ts, 1007);
    let back = stored_to_item(&s).unwrap();
    assert_eq!(back.raw, c.raw);
    assert_eq!(back.kind, ItemType::Code);
    assert_eq!(back.lang.as_deref(), Some("rs"));
    assert_eq!(back.preview, c.preview);
    assert_eq!(back.timestamp, 1007);
    assert!(back.pinned);
    assert_eq!(back.content_hash, c.content_hash);
}

#[test]
fn every_length_of_payload_survives() {
    for n in 0..40usize {
        let raw: Vec<u8> = (0..n).map(|i| (i * 37 + n) as u8).collect();
        let back = stored_to_item(&item_to_stored(&clip(1, ItemType::Text, &raw))).unwrap();
        assert_eq!(back.raw, raw);
    }
}

#[test]
fn bad_stored_items_are_refused() {
    let good = item_to_stored(&text(1));
    let with = |kind: &str, b64: &str| StoredItem {
        kind: kind.to_string(),
        content_b64: b64.to_string(),
        ..good.clone()
    };
    assert!(stored_to_item(&with("text", "")).is_some());
    assert!(stored_to_item(&with("nothing", "")).is_none());
    for bad in ["Zg", "Zg=", "Z===", "Zh==", "Zg==Zg==", "Z g=", "====", "Zg=A"] {
        assert!(stored_to_item(&with("text", bad)).is_none(), "{}", bad);
    }
    assert_eq!(stored_to_item(&with("text", "Zg==")).unwrap().raw, b"f");
    // The payload of an image is not looked at.
    assert!(stored_to_item(&with("image", "!!")).unwrap().raw.is_empty());
}

#[test]
fn history_is_loaded_as_it_was_stored() {
    let mut image = clip(12, ItemType::Image, b"");
    let (full, thumb) = media_filenames(12);
    assert_eq!((full.as_str(), thumb.as_str()), ("12.png", "12_thumb.png"));
    image.media_file = Some(full);
    image.thumb_file = Some(thumb);
    image.media_w = Some(3);
    image.media_h = Some(4);
    let hist = vec![text(5), image, clip(9, ItemType::Html, b"<b>")];
    let (version, stored) = history_to_store(&hist);
    assert_eq!(version, 2);
    let (items, next) = load_history(version, &stored, &vec![false, true, false]);
    assert_eq!(next, 13);
    assert_eq!(items.len(), 3);
    assert_eq!(items[0].raw, b"text 5");
    assert_eq!(items[1].media_w, Some(3));
    assert_eq!(items[2].raw, b"<b>");
    // Without its file an image is not loaded.
    let (items, next) = load_history(version, &stored, &vec![true, false, true]);
    assert_eq!(items.iter().map(|i| i.id).collect::<Vec<_>>(), vec![5, 9]);
    assert_eq!(next, 10);
    // Nor is anything of another version.
    let (items, next) = load_history(1, &stored, &vec![true, true, true]);
    assert!(items.is_empty());
    assert_eq!(next, 1);
    let (items, next) = load_history(2, &vec![], &vec![]);
    assert!(items.is_empty());
    assert_eq!(next, 1);
}

#[test]
fn image_without_a_name_is_not_loaded() {
    let stored = vec![item_to_stored(&clip(3, ItemType::Image, b""))];
    assert!(load_history(2, &stored, &vec![true]).0.is_empty());
}

#[test]
fn ids_of_items_that_are_not_loaded_do_not_count() {
    let mut bad = item_to_stored(&text(u64::MAX));
    bad.kind = "unknown".to_string();
    let stored = vec![item_to_stored(&text(4)), bad];
    let (items, next) = load_history(2, &stored, &vec![false, false]);
    assert_eq!((items.len(), next), (1, 5));
    let last = vec![item_to_stored(&text(u64::MAX))];
    assert_eq!(load_history(1, &last, &vec![false]).1, 1);
    assert_eq!(load_items(2, &last, &vec![false])[0].id, u64::MAX);
    assert_eq!(next_free_id(&vec![text(7), text(3)]), 8);
}

#[test]
fn orphans_are_files_that_nothing_needs() {
    let mut image = clip(1, ItemType::Image, b"");
    image.media_file = Some("1.png".to_string());
    image.thumb_file = Some("1_thumb.png".to_string());
    assert_eq!(media_of(&image), vec!["1.png", "1_thumb.png"]);
    assert!(media_of(&text(2)).is_empty());
    let hist = vec![text(2), image];
    assert!(!is_orphan(&hist, "1.png"));
    assert!(!is_orphan(&hist, "1_thumb.png"));
    assert!(is_orphan(&hist, "1.png.tmp"));
    assert!(is_orphan(&vec![], "1.png"));
    assert!(holds_id(&hist, 1));
    assert!(!holds_id(&hist, 3));
}

#[test]
fn items_do_not_share_files() {
    let (media, thumb) = media_filenames(1);
    let (other_media, other_thumb) = media_filenames(11);
    assert_eq!((media.as_str(), thumb.as_str()), ("1.png", "1_thumb.png"));
    assert_eq!((other_media.as_str(), other_thumb.as_str()), ("11.png", "11_thumb.png"));
    let mut image = clip(11, ItemType::Image, b"");
    image.media_file = Some(other_media);
    image.thumb_file = Some(other_thumb);
    assert!(!media_of(&image).contains(&media));
    assert!(!media_of(&image).contains(&thumb));
}

#[test]
fn repeats_are_not_added() {
    let mut hist = Vec::new();
    assert!(push_item(&mut hist, text(1)).is_some());
    let mut again = text(1);
    again.id = 2;
    assert!(push_item(&mut hist, again).is_none());
    assert_eq!(hist.len(), 1);
    // The same bytes of another kind are another item.
    assert!(push_item(&mut hist, clip(3, ItemType::Code, b"text 1")).is_some());
    // Only the newest item counts.
    assert!(push_item(&mut hist, text(1)).is_some());
    assert_eq!(hist.len(), 3);
}

#[test]
fn oldest_unpinned_items_are_dropped() {
    let mut hist: Vec<ClipItem> = (0..200).map(text).collect();
    hist[0].pinned = true;
    let dropped = push_item(&mut hist, text(1000)).unwrap();
    assert_eq!(dropped.len(), 1);
    assert_eq!(dropped[0].id, 1);
    assert_eq!(hist.len(), 200);
    assert_eq!(hist[0].id, 0);
    assert_eq!(hist[199].id, 1000);
    assert_eq!(pinned_count(&hist), 1);
}

#[test]
fn pinned_items_stay_above_the_limit() {
    let mut hist: Vec<ClipItem> = (0..203).map(text).collect();
    for i in hist.iter_mut() {
        i.pinned = true;
    }
    hist[100].pinned = false;
    let dropped = prune_history(&mut hist);
    assert_eq!(dropped.iter().map(|i| i.id).collect::<Vec<_>>(), vec![100]);
    assert_eq!(hist.len(), 202);
    assert_eq!(pinned_count(&hist), 202);
    // There is no room for a new item that is not pinned: it is not added.
    assert!(push_item(&mut hist, text(999)).is_none());
    assert!(!holds_id(&hist, 999));
    assert_eq!(hist.len(), 202);
    let mut pinned = text(998);
    pinned.pinned = true;
    assert!(push_item(&mut hist, pinned).unwrap().is_empty());
    assert_eq!(hist[202].id, 998);
}

#[test]
fn pinned_items_leave_room_below_the_limit() {
    let mut hist: Vec<ClipItem> = (0..200).map(text).collect();
    for i in hist.iter_mut() {
        i.pinned = true;
    }
    assert!(push_item(&mut hist, text(999)).is_none());
    assert_eq!(hist.iter().map(|i| i.id).collect::<Vec<_>>(), (0..200).collect::<Vec<u64>>());
    hist[50].pinned = false;
    let dropped = push_item(&mut hist, text(999)).unwrap();
    assert_eq!(dropped.iter().map(|i| i.id).collect::<Vec<_>>(), vec![50]);
    assert!(holds_id(&hist, 999));
    assert_eq!(hist.len(), 200);
}

#[test]
fn items_are_pinned_and_deleted() {
    let mut hist: Vec<ClipItem> = (0..3).map(text).collect();
    assert!(toggle_pin(&mut hist, 1));
    assert!(hist[1].pinned);
    assert!(toggle_pin(&mut hist, 1));
    assert!(!hist[1].pinned);
    assert!(!toggle_pin(&mut hist, 3));
    assert_eq!(delete_item(&mut hist, 0).unwrap().id, 0);
    assert!(delete_item(&mut hist, 2).is_none());
    assert_eq!(hist.len(), 2);
    clear_items(&mut hist);
    assert!(hist.is_empty());
}

#[test]
fn base64_has_a_limit() {
    assert!(encodable(0));
    assert!(encodable(1 << 20));
    assert!(!encodable(usize::MAX));
}

#[test]
fn copies_are_equal() {
    let mut c = clip(4, ItemType::File, b"a\nb");
    c.lang = Some("x".to_string());
    let d = c.copy();
    assert_eq!(d.raw, c.raw);
    assert_eq!(d.lang, c.lang);
    assert_eq!(d.id, 4);
}
