use clipit::app::{
    cycle, preview_text, shortcut_registered, toggle_command_string, App, Config, Message,
    PopupAction,
};
use clipit::clipboard::{
    after_image_read, after_text_read, content_hash, copied_hash, hash_text, image_probe_order,
    poll_interval_ms, sniff_format, with_html, Clip, ImageFormat, Poller, ReadStep, TextRead,
};
use clipit::history::{
    hash_hex, image_file_for, image_path, rel_time, rel_time_at, Entry, History, Kind,
};

fn text_entry(id: &str, text: &str, pinned: bool, ts: u64) -> Entry {
    Entry {
        id: id.to_string(),
        text: text.to_string(),
        html: None,
        image: None,
        kind: Kind::Text,
        pinned,
        ts,
    }
}

fn texts(h: &History) -> Vec<String> {
    h.entries.iter().map(|e| e.text.clone()).collect()
}

#[test]
fn hash_hex_is_fnv1a_in_sixteen_hex_digits() {
    assert_eq!(hash_hex(b""), "cbf29ce484222325");
    assert_eq!(hash_hex(b"a"), "af63dc4c8601ec8c");
    assert_eq!(hash_hex(b"hello"), "a430d84680aabd0b");
}

#[test]
fn image_file_is_id_with_png_suffix() {
    assert_eq!(image_file_for(b"a", ImageFormat::Png), "af63dc4c8601ec8c.png");
    assert_eq!(image_file_for(b"a", ImageFormat::Jpeg), "af63dc4c8601ec8c.jpg");
    assert_eq!(image_file_for(b"a", ImageFormat::Gif), "af63dc4c8601ec8c.gif");
    assert_eq!(image_file_for(b"a", ImageFormat::Webp), "af63dc4c8601ec8c.webp");
    assert_eq!(image_file_for(b"a", ImageFormat::Bmp), "af63dc4c8601ec8c.bmp");
}

#[test]
fn text_ids_hash_the_utf8_bytes() {
    let mut h = History::default();
    assert!(h.add_text_at("héllo".to_string(), None, &[], 5));
    assert_eq!(h.entries[0].id, hash_hex("héllo".as_bytes()));
    assert_eq!(h.entries[0].ts, 5);
    assert_eq!(h.entries[0].kind, Kind::Text);
    assert!(h.entries[0].image.is_none());
}

#[test]
fn add_text_stamps_with_the_clock() {
    let mut h = History::default();
    assert!(h.add_text("x".to_string(), &[]));
    assert!(h.entries[0].ts > 1_600_000_000);
}

#[test]
fn rel_time_labels() {
    assert_eq!(rel_time_at(0, 1000), "");
    assert_eq!(rel_time_at(100, 130), "now");
    assert_eq!(rel_time_at(200, 100), "now");
    assert_eq!(rel_time_at(100, 100 + 125), "2m");
    assert_eq!(rel_time_at(100, 100 + 3 * 3600 + 5), "3h");
    assert_eq!(rel_time_at(100, 100 + 2 * 86_400), "2d");
    assert_eq!(rel_time_at(1, 1 + 10 * 86_400 + 7), "10d");
    assert_eq!(rel_time(0), "");
    assert_eq!(rel_time(1), format!("{}d", {
        let now = std::time::SystemTime::now()
            .duration_since(std::time::UNIX_EPOCH)
            .unwrap()
            .as_secs();
        (now - 1) / 86_400
    }));
}

#[test]
fn ignore_patterns_are_trimmed_and_case_insensitive() {
    let mut h = History::default();
    let patterns = vec!["  SeCrEt  ".to_string(), "   ".to_string(), String::new()];
    assert!(!h.add_text_at("top SECRET stuff".to_string(), None, &patterns, 1));
    assert!(h.add_text_at("nothing to hide".to_string(), None, &patterns, 1));
    assert_eq!(h.total(), 1);
}

#[test]
fn ignore_patterns_trim_unicode_space_and_match_anywhere() {
    let mut h = History::default();
    let patterns = vec!["\u{3000}\u{a0}Key\u{2003}\n".to_string()];
    assert!(!h.add_text_at("KEY".to_string(), None, &patterns, 1));
    assert!(!h.add_text_at("apikey".to_string(), None, &patterns, 1));
    assert!(!h.add_text_at("keyboard".to_string(), None, &patterns, 1));
    assert!(h.add_text_at("ke y".to_string(), None, &patterns, 1));
    assert!(h.add_text_at("ke".to_string(), None, &patterns, 1));
    assert_eq!(texts(&h), vec!["ke".to_string(), "ke y".to_string()]);
}

#[test]
fn toggling_a_pin_twice_restores_it() {
    let mut h = History::default();
    h.add_text_at("a".to_string(), None, &[], 1);
    h.add_text_at("b".to_string(), None, &[], 2);
    let id = hash_hex(b"a");
    h.toggle_pin(&id);
    assert!(h.get(&id).unwrap().pinned);
    assert_eq!(h.pinned_count(), 1);
    h.toggle_pin(&id);
    assert!(!h.get(&id).unwrap().pinned);
    assert_eq!(h.pinned_count(), 0);
}

#[test]
fn trim_keeps_pins_and_newest_unpinned() {
    let mut h = History::default();
    h.entries = vec![
        text_entry("1", "n1", false, 1),
        text_entry("2", "p1", true, 1),
        text_entry("3", "n2", false, 1),
        text_entry("4", "n3", false, 1),
        text_entry("5", "p2", true, 1),
    ];
    h.trim(1);
    assert_eq!(texts(&h), vec!["n1", "p1", "p2"]);
    h.trim(0);
    assert_eq!(texts(&h), vec!["p1", "p2"]);
}

#[test]
fn prune_at_cuts_at_the_expiry() {
    let mut h = History::default();
    h.entries = vec![
        text_entry("1", "new", false, 10 * 86_400),
        text_entry("2", "edge", false, 9 * 86_400),
        text_entry("3", "old", false, 9 * 86_400 - 1),
        text_entry("4", "pinned", true, 0),
    ];
    h.prune_at(0, 10 * 86_400);
    assert_eq!(h.total(), 4);
    h.prune_at(1, 10 * 86_400);
    assert_eq!(texts(&h), vec!["new", "edge", "pinned"]);
    h.prune_at(30, 5);
    assert_eq!(texts(&h), vec!["new", "edge", "pinned"]);
}

#[test]
fn display_puts_pins_first_keeping_order() {
    let mut h = History::default();
    h.entries = vec![
        text_entry("1", "a", false, 1),
        text_entry("2", "b", true, 1),
        text_entry("3", "c", false, 1),
        text_entry("4", "d", true, 1),
    ];
    let shown: Vec<String> = h.display().into_iter().map(|e| e.text).collect();
    assert_eq!(shown, vec!["b", "d", "a", "c"]);
}

#[test]
fn unknown_ids_find_nothing() {
    let mut h = History::default();
    h.add_text_at("a".to_string(), None, &[], 1);
    assert!(h.get("nope").is_none());
    assert!(h.delete("nope").is_none());
    assert_eq!(h.total(), 1);
}

#[test]
fn restore_replaces_same_id_and_keeps_pin() {
    let mut h = History::default();
    h.entries = vec![text_entry("x", "old", true, 1), text_entry("y", "y", false, 1)];
    h.restore(text_entry("x", "new", false, 2));
    assert_eq!(texts(&h), vec!["new", "y"]);
    assert!(h.entries[0].pinned);
    assert_eq!(h.entries[0].ts, 2);
}

#[test]
fn repair_backfills_and_drops_missing_images() {
    let mut h = History::default();
    let mut img = text_entry("img", "", false, 3);
    img.kind = Kind::Image;
    img.image = Some("img.png".to_string());
    let mut gone = img.clone();
    gone.id = "gone".to_string();
    h.entries = vec![text_entry("", "a", false, 0), img, gone, text_entry("k", "b", false, 7)];
    h.repair(99, &[true, true, false, false]);
    assert_eq!(h.total(), 3);
    assert_eq!(h.entries[0].id, hash_hex(b"a"));
    assert_eq!(h.entries[0].ts, 99);
    assert_eq!(h.entries[1].id, "img");
    assert_eq!(h.entries[1].ts, 3);
    assert_eq!(h.entries[2].id, "k");
}

#[test]
fn add_image_records_payload_name() {
    let mut h = History::default();
    h.add_image_at(b"gif-bytes", ImageFormat::Gif, 4);
    let e = &h.entries[0];
    assert_eq!(e.kind, Kind::Image);
    assert_eq!(e.id, hash_hex(b"gif-bytes"));
    assert_eq!(e.image.as_deref(), Some(format!("{}.gif", hash_hex(b"gif-bytes")).as_str()));
    assert_eq!(e.text, "");
    assert_eq!(e.ts, 4);
}

#[test]
fn image_path_joins_images_dir() {
    let dir = "/data/clipit";
    assert_eq!(image_path(dir, Some("f.png")), Some("/data/clipit/images/f.png".to_string()));
    assert_eq!(image_path(dir, Some("..f")), Some("/data/clipit/images/..f".to_string()));
    assert_eq!(image_path(dir, None), None);
    assert_eq!(image_path("", Some("f.png")), Some("images/f.png".to_string()));
    assert_eq!(image_path("/data/", Some("f.png")), Some("/data/images/f.png".to_string()));
    assert_eq!(image_path("/", Some("f.png")), Some("/images/f.png".to_string()));
    for (d, f) in [("/data/clipit", "f.png"), ("", "a.jpg"), ("/x/", "b.gif"), ("rel", "c")] {
        let joined = std::path::Path::new(d).join("images").join(f);
        assert_eq!(image_path(d, Some(f)).map(std::path::PathBuf::from), Some(joined));
    }
}

#[test]
fn image_path_refuses_traversal() {
    let dir = "/data/clipit";
    assert_eq!(image_path(dir, Some("../../.ssh/id_rsa")), None);
    assert_eq!(image_path(dir, Some("/etc/passwd")), None);
    assert_eq!(image_path(dir, Some("sub/f.png")), None);
    assert_eq!(image_path(dir, Some("..")), None);
    assert_eq!(image_path(dir, Some(".")), None);
    assert_eq!(image_path(dir, Some("")), None);
}

#[test]
fn preview_shows_first_line_cut_with_ellipsis() {
    let mut e = text_entry("1", "first line\r\nsecond", false, 1);
    assert_eq!(preview_text(&e), "first line");
    e.text = "only\rline".to_string();
    assert_eq!(preview_text(&e), "only\rline");
    e.text = String::new();
    assert_eq!(preview_text(&e), "");
    e.text = "\nafter".to_string();
    assert_eq!(preview_text(&e), "");
    e.text = "é".repeat(97);
    assert_eq!(preview_text(&e), format!("{}…", "é".repeat(96)));
    e.text = "x".repeat(96);
    assert_eq!(preview_text(&e), "x".repeat(96));
    e.kind = Kind::Image;
    assert_eq!(preview_text(&e), "[image]");
}

#[test]
fn cycle_steps_and_holds_at_the_ends() {
    let sizes = [50, 100, 250, 500, 1000];
    assert_eq!(cycle(&sizes, 500, 1), 1000);
    assert_eq!(cycle(&sizes, 1000, 1), 1000);
    assert_eq!(cycle(&sizes, 50, -1), 50);
    assert_eq!(cycle(&sizes, 7, 1), 100);
    assert_eq!(cycle(&sizes, 2000, -1), 500);
    assert_eq!(cycle(&sizes, 120, -1), 100);
}

#[test]
fn poll_interval_has_a_floor() {
    assert_eq!(poll_interval_ms(50), 100);
    assert_eq!(poll_interval_ms(800), 800);
}

#[test]
fn poller_skips_baseline_and_repeats() {
    let mut p = Poller::new();
    let a = Some(Clip::Text("a".to_string(), None));
    let ha = content_hash(&a);
    assert!(p.observe(ha, a.clone()).is_none());
    assert!(p.observe(ha, a.clone()).is_none());
    let b = Some(Clip::Text("b".to_string(), None));
    let hb = content_hash(&b);
    assert!(matches!(p.observe(hb, b.clone()), Some(Clip::Text(t, None)) if t == "b"));
    assert!(p.observe(hb, b).is_none());
    assert!(p.observe(0, None).is_none());
    assert!(matches!(p.observe(ha, a), Some(Clip::Text(t, None)) if t == "a"));
}

#[test]
fn content_hashes() {
    assert_eq!(content_hash(&None), 0);
    let t = Some(Clip::Text("abc".to_string(), None));
    assert_eq!(content_hash(&t), hash_text("abc"));
    assert_ne!(hash_text("abc"), hash_text("abd"));
    let i1 = content_hash(&Some(Clip::Image(vec![1, 2, 3], ImageFormat::Png)));
    let i2 = content_hash(&Some(Clip::Image(vec![1, 2, 4], ImageFormat::Png)));
    assert_ne!(i1, i2);
}

#[test]
fn copied_hash_matches_what_the_watcher_sees() {
    let plain = Clip::Text("abc".to_string(), None);
    let rich = Clip::Text("abc".to_string(), Some("<b>abc</b>".to_string()));
    assert_eq!(copied_hash(&plain), hash_text("abc"));
    assert_eq!(copied_hash(&rich), hash_text("abc"));
    assert_ne!(copied_hash(&plain), 0);
    let image = Clip::Image(vec![137, 80, 78, 71], ImageFormat::Png);
    let seen = content_hash(&Some(image.clone()));
    assert_eq!(copied_hash(&image), seen);
    let mut p = Poller::new();
    assert!(p.observe(seen, None).is_none());
    assert!(p.observe(copied_hash(&image), Some(image)).is_none());
}

#[test]
fn text_reads_are_capped_and_decoded() {
    match after_text_read(TextRead::Bytes("héllo".as_bytes().to_vec()), true) {
        ReadStep::Done(Some(Clip::Text(t, None))) => assert_eq!(t, "héllo"),
        _ => panic!("text expected"),
    }
    assert!(matches!(
        after_text_read(TextRead::Bytes(vec![b'a'; 100_001]), true),
        ReadStep::Done(None)
    ));
    assert!(matches!(
        after_text_read(TextRead::Bytes(vec![b'a'; 100_000]), true),
        ReadStep::Done(Some(_))
    ));
    assert!(matches!(after_text_read(TextRead::Bytes(vec![0xff, 0xfe]), true), ReadStep::Done(None)));
    assert!(matches!(after_text_read(TextRead::NoMimeType, true), ReadStep::ReadImage));
    assert!(matches!(after_text_read(TextRead::NoMimeType, false), ReadStep::Done(None)));
    assert!(matches!(after_text_read(TextRead::Nothing, true), ReadStep::Done(None)));
}

#[test]
fn image_reads_need_a_known_signature() {
    let mut png = vec![0x89, b'P', b'N', b'G', 0x0d, 0x0a, 0x1a, 0x0a];
    png.extend_from_slice(b"rest");
    assert!(
        matches!(after_image_read(Some(png.clone())), Some(Clip::Image(b, ImageFormat::Png)) if b == png)
    );
    let jpeg = vec![0xff, 0xd8, 0xff, 0xe0, 1, 2];
    assert!(matches!(after_image_read(Some(jpeg)), Some(Clip::Image(_, ImageFormat::Jpeg))));
    assert!(matches!(
        after_image_read(Some(b"GIF89a....".to_vec())),
        Some(Clip::Image(_, ImageFormat::Gif))
    ));
    assert!(matches!(
        after_image_read(Some(b"GIF87a".to_vec())),
        Some(Clip::Image(_, ImageFormat::Gif))
    ));
    assert!(matches!(
        after_image_read(Some(b"RIFF\x10\0\0\0WEBPVP8 ".to_vec())),
        Some(Clip::Image(_, ImageFormat::Webp))
    ));
    assert!(after_image_read(Some(b"RIFF\x10\0\0\0WAVEfmt ".to_vec())).is_none());
    assert!(matches!(
        after_image_read(Some(b"BM\x36\0".to_vec())),
        Some(Clip::Image(_, ImageFormat::Bmp))
    ));
    assert!(after_image_read(Some(b"GIF88a".to_vec())).is_none());
    assert!(after_image_read(Some(Vec::new())).is_none());
    assert!(after_image_read(Some(vec![0x89, b'P'])).is_none());
    assert!(after_image_read(None).is_none());
    let mut big = png.clone();
    big.resize(4_000_001, 0);
    assert!(after_image_read(Some(big)).is_none());
    let mut max = png.clone();
    max.resize(4_000_000, 0);
    assert!(after_image_read(Some(max)).is_some());
}

#[test]
fn sniffing_and_probe_order() {
    assert_eq!(sniff_format(&[0xff, 0xd8, 0xff]), Some(ImageFormat::Jpeg));
    assert_eq!(sniff_format(&[0xff, 0xd8]), None);
    assert_eq!(sniff_format(b"BM"), Some(ImageFormat::Bmp));
    assert_eq!(sniff_format(b"RIFF1234WEB"), None);
    assert_eq!(
        image_probe_order(),
        vec![
            ImageFormat::Png,
            ImageFormat::Jpeg,
            ImageFormat::Gif,
            ImageFormat::Webp,
            ImageFormat::Bmp
        ]
    );
    assert_eq!(ImageFormat::Jpeg.mime_type(), "image/jpeg");
    assert_eq!(ImageFormat::Webp.mime_type(), "image/webp");
    assert_eq!(ImageFormat::Png.ext(), "png");
    assert_eq!(ImageFormat::Jpeg.ext(), "jpg");
}

#[test]
fn config_defaults() {
    let c = Config::default();
    assert_eq!(c.history_size, 500);
    assert_eq!(c.poll_ms, 800);
    assert_eq!(c.expire_days, 0);
    assert!(c.capture_images);
    assert!(!c.capture_primary);
    assert!(c.ignore_patterns.is_empty());
}

fn clip_text(app: &mut App, text: &str, now: u64) -> clipit::app::Effects {
    app.update_at(Message::ClipboardContent(Clip::Text(text.to_string(), None)), now)
}

#[test]
fn own_copy_is_not_recorded_again() {
    let mut app = App::default();
    assert!(clip_text(&mut app, "x", 1).save_history);
    let e = app.update_at(Message::Copied(Some(hash_text("y"))), 2);
    assert!(!e.save_history);
    let e = clip_text(&mut app, "y", 3);
    assert!(!e.save_history);
    assert_eq!(app.history.total(), 1);
    assert!(clip_text(&mut app, "z", 4).save_history);
    assert_eq!(app.last_set, None);
    assert!(!clip_text(&mut app, "   ", 5).save_history);
    assert_eq!(texts(&app.history), vec!["z", "x"]);
}

#[test]
fn delete_then_undo_restores_front() {
    let mut app = App::default();
    clip_text(&mut app, "a", 1);
    clip_text(&mut app, "b", 2);
    clip_text(&mut app, "c", 3);
    app.expanded = Some(hash_hex(b"b"));
    let e = app.update_at(Message::Delete(hash_hex(b"b")), 4);
    assert!(e.save_history);
    assert_eq!(app.expanded, None);
    assert_eq!(texts(&app.history), vec!["c", "a"]);
    assert_eq!(app.last_deleted.len(), 1);
    assert!(app.update_at(Message::UndoDelete, 5).save_history);
    assert_eq!(texts(&app.history), vec!["b", "c", "a"]);
    assert!(app.last_deleted.is_empty());
    assert!(!app.update_at(Message::UndoDelete, 6).save_history);
}

#[test]
fn undo_list_keeps_twenty() {
    let mut app = App::default();
    for i in 0..25 {
        clip_text(&mut app, &format!("t{i}"), 1);
    }
    for i in 0..25 {
        app.update_at(Message::Delete(hash_hex(format!("t{i}").as_bytes())), 2);
    }
    assert_eq!(app.last_deleted.len(), 20);
    assert_eq!(app.last_deleted[0].text, "t5");
}

#[test]
fn popup_toggles_and_resets_view() {
    let mut app = App::default();
    app.search = "q".to_string();
    app.selected = Some(3);
    let e = app.update_at(Message::TogglePopup, 0);
    assert_eq!(e.popup, PopupAction::Open);
    assert!(app.popup_open);
    assert_eq!(app.search, "");
    assert_eq!(app.selected, None);
    let e = app.update_at(Message::TogglePopup, 0);
    assert_eq!(e.popup, PopupAction::Close);
    assert!(!app.popup_open);
    assert_eq!(app.update_at(Message::Escape, 0).popup, PopupAction::Keep);
    app.update_at(Message::TogglePopup, 0);
    app.update_at(Message::PopupClosed(false), 0);
    assert!(app.popup_open);
    app.update_at(Message::PopupClosed(true), 0);
    assert!(!app.popup_open);
}

#[test]
fn navigation_stays_in_visible_rows() {
    let mut app = App::default();
    app.update_at(Message::NavDown, 0);
    assert_eq!(app.selected, None);
    clip_text(&mut app, "a", 1);
    clip_text(&mut app, "b", 2);
    app.update_at(Message::NavDown, 0);
    assert_eq!(app.selected, Some(1));
    app.update_at(Message::NavDown, 0);
    assert_eq!(app.selected, Some(1));
    app.update_at(Message::NavUp, 0);
    app.update_at(Message::NavUp, 0);
    assert_eq!(app.selected, Some(0));
    app.update_at(Message::TogglePopup, 0);
    let e = app.update_at(Message::Activate, 9);
    assert!(app.selected.is_none());
    assert!(e.copy.is_none());
    app.update_at(Message::NavUp, 0);
    let e = app.update_at(Message::Activate, 9);
    assert_eq!(e.copy.map(|c| c.text), Some("b".to_string()));
    assert_eq!(e.popup, PopupAction::Close);
}

#[test]
fn copy_moves_entry_to_front() {
    let mut app = App::default();
    clip_text(&mut app, "a", 1);
    clip_text(&mut app, "b", 2);
    let e = app.update_at(Message::Copy(hash_hex(b"a")), 3);
    assert!(e.save_history);
    assert_eq!(e.copy.map(|c| c.text), Some("a".to_string()));
    assert_eq!(e.popup, PopupAction::Keep);
    assert_eq!(texts(&app.history), vec!["a", "b"]);
    let e = app.update_at(Message::Copy("missing".to_string()), 3);
    assert!(e.copy.is_none() && !e.save_history);
    let mut img = text_entry("img", "", false, 1);
    img.kind = Kind::Image;
    app.history.entries.push(img);
    let e = app.update_at(Message::Copy("img".to_string()), 3);
    assert!(e.copy.is_none() && !e.save_history);
}

#[test]
fn search_filters_case_insensitively() {
    let mut app = App::default();
    clip_text(&mut app, "Hello World", 1);
    clip_text(&mut app, "other", 2);
    app.history.add_image_at(b"img", ImageFormat::Png, 3);
    app.update_at(Message::Search("  WORLD ".to_string()), 0);
    let v: Vec<String> = app.visible().into_iter().map(|e| e.text).collect();
    assert_eq!(v, vec!["Hello World"]);
    app.update_at(Message::Search("image".to_string()), 0);
    let v = app.visible();
    assert_eq!(v.len(), 1);
    assert_eq!(v[0].kind, Kind::Image);
    app.update_at(Message::Search(String::new()), 0);
    assert_eq!(app.visible().len(), 3);
}

#[test]
fn visible_is_capped() {
    let mut app = App::default();
    for i in 0..250 {
        app.history.add_text_at(format!("t{i}"), None, &[], 1);
    }
    assert_eq!(app.visible().len(), 200);
    assert_eq!(app.visible()[0].text, "t249");
}

#[test]
fn settings_steps_write_config() {
    let mut app = App::default();
    for i in 0..5 {
        clip_text(&mut app, &format!("t{i}"), 1);
    }
    let e = app.update_at(Message::HistorySize(-1), 0);
    assert!(e.write_config && e.save_history);
    assert_eq!(app.config.history_size, 250);
    let e = app.update_at(Message::HistorySize(1), 0);
    assert_eq!(app.config.history_size, 500);
    assert!(e.write_config);
    app.config.history_size = 1000;
    let e = app.update_at(Message::HistorySize(1), 0);
    assert!(!e.write_config);
    let e = app.update_at(Message::PollRate(1), 0);
    assert_eq!(app.config.poll_ms, 1500);
    assert!(e.write_config && !e.save_history);
    let e = app.update_at(Message::ExpireDays(1), 10 * 86_400);
    assert_eq!(app.config.expire_days, 1);
    assert!(e.write_config && e.save_history);
    assert_eq!(app.history.total(), 0);
    let e = app.update_at(Message::ToggleImages(false), 0);
    assert!(e.write_config && !app.config.capture_images);
    let e = app.update_at(Message::TogglePrimary(true), 0);
    assert!(e.write_config && app.config.capture_primary);
}

#[test]
fn ignore_patterns_are_managed() {
    let mut app = App::default();
    app.update_at(Message::IgnoreInput("  token  ".to_string()), 0);
    assert!(app.update_at(Message::IgnoreAdd, 0).write_config);
    assert_eq!(app.config.ignore_patterns, vec!["token".to_string()]);
    assert_eq!(app.ignore_input, "");
    app.update_at(Message::IgnoreInput("token".to_string()), 0);
    assert!(!app.update_at(Message::IgnoreAdd, 0).write_config);
    assert_eq!(app.config.ignore_patterns.len(), 1);
    assert!(!clip_text(&mut app, "my TOKEN here", 1).save_history);
    assert!(app.update_at(Message::IgnoreRemove("token".to_string()), 0).write_config);
    assert!(app.config.ignore_patterns.is_empty());
    assert!(clip_text(&mut app, "my TOKEN here", 1).save_history);
}

#[test]
fn images_are_stored_then_recorded() {
    let mut app = App::default();
    let e = app.update_at(
        Message::ClipboardContent(Clip::Image(vec![1, 2, 3], ImageFormat::Bmp)),
        0,
    );
    assert_eq!(e.store_image, Some((vec![1, 2, 3], ImageFormat::Bmp)));
    assert_eq!(app.history.total(), 0);
    let e = app.record_image_at(&[1, 2, 3], ImageFormat::Bmp, 7);
    assert!(e.save_history);
    assert_eq!(app.history.entries[0].kind, Kind::Image);
    assert_eq!(app.history.entries[0].ts, 7);
    assert_eq!(
        app.history.entries[0].image,
        Some(format!("{}.bmp", hash_hex(&[1, 2, 3])))
    );
}

#[test]
fn config_message_applies_limits() {
    let mut app = App::default();
    for i in 0..5 {
        clip_text(&mut app, &format!("t{i}"), 86_400 * (i + 1));
    }
    let mut c = Config::default();
    c.history_size = 3;
    c.expire_days = 1;
    app.update_at(Message::Config(c), 86_400 * 5);
    assert_eq!(texts(&app.history), vec!["t4", "t3"]);
    assert_eq!(app.config.history_size, 3);
}

#[test]
fn expand_and_settings_toggles() {
    let mut app = App::default();
    app.update_at(Message::ToggleExpand("a".to_string()), 0);
    assert_eq!(app.expanded.as_deref(), Some("a"));
    app.update_at(Message::ToggleHtmlView, 0);
    assert!(app.expanded_html);
    app.update_at(Message::ToggleExpand("a".to_string()), 0);
    assert_eq!(app.expanded, None);
    assert!(!app.expanded_html);
    app.export_msg = Some("done".to_string());
    app.update_at(Message::ShowSettings(true), 0);
    assert!(app.show_settings);
    assert!(app.export_msg.is_none());
    assert!(app.update_at(Message::Export, 0).export);
}

#[test]
fn new_applies_expiry_and_size() {
    let mut h = History::default();
    h.entries = vec![
        text_entry("1", "a", false, 100 * 86_400),
        text_entry("2", "b", false, 1),
        text_entry("3", "c", true, 1),
        text_entry("4", "d", false, 100 * 86_400),
    ];
    let mut c = Config::default();
    c.expire_days = 7;
    c.history_size = 1;
    let app = App::new_at(c, h, 100 * 86_400);
    assert_eq!(texts(&app.history), vec!["a", "c"]);
}

#[test]
fn expiry_longer_than_the_clock_keeps_everything() {
    let mut h = History::default();
    h.entries = vec![text_entry("1", "a", false, 1), text_entry("2", "b", false, 0)];
    h.prune_at(u64::MAX, 1_700_000_000);
    assert_eq!(h.total(), 2);
    h.prune(u64::MAX / 86_400 + 1);
    assert_eq!(h.total(), 2);
    let mut c = Config::default();
    c.expire_days = u64::MAX;
    let app = App::new_at(c, h, 1_700_000_000);
    assert_eq!(app.history.total(), 2);
}

#[test]
fn html_form_is_kept_with_the_text() {
    let c = with_html(Clip::Text("hi".to_string(), None), Some(b"<b>hi</b>".to_vec()));
    assert!(matches!(&c, Clip::Text(t, Some(h)) if t == "hi" && h == "<b>hi</b>"));
    let c = with_html(Clip::Text("hi".to_string(), None), Some(vec![0xff]));
    assert!(matches!(&c, Clip::Text(_, None)));
    let c = with_html(Clip::Text("hi".to_string(), None), Some(vec![b'a'; 100_001]));
    assert!(matches!(&c, Clip::Text(_, None)));
    let c = with_html(Clip::Text("hi".to_string(), None), None);
    assert!(matches!(&c, Clip::Text(_, None)));
    let c = with_html(Clip::Image(vec![1], ImageFormat::Bmp), Some(b"x".to_vec()));
    assert!(matches!(&c, Clip::Image(b, ImageFormat::Bmp) if b == &vec![1]));

    let mut app = App::default();
    let html = Clip::Text("hi".to_string(), Some("<b>hi</b>".to_string()));
    assert!(app.update_at(Message::ClipboardContent(html), 1).save_history);
    assert_eq!(app.history.entries[0].html.as_deref(), Some("<b>hi</b>"));
    let e = app.update_at(Message::Copy(hash_hex(b"hi")), 2);
    assert_eq!(e.copy.and_then(|c| c.html), Some("<b>hi</b>".to_string()));
    assert!(app.update_at(Message::ClipboardContent(Clip::Text("hi".to_string(), None)), 3).save_history);
    assert_eq!(app.history.total(), 1);
    assert_eq!(app.history.entries[0].html, None);
}

#[test]
fn shortcut_is_found_by_its_command() {
    assert_eq!(toggle_command_string(), "clipit --toggle");
    assert!(!shortcut_registered(&vec!["clipit".to_string()]));
    assert!(shortcut_registered(&vec!["x".to_string(), "clipit --toggle".to_string()]));
    assert!(!shortcut_registered(&Vec::new()));
}
