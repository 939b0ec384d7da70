//! The window.

use niri_clip::config::Config;
use niri_clip::gui::app::{App, Effect, Key, Message, Modifiers};
use niri_clip::gui::filter::compute_filtered;
use niri_clip::gui::instance::{existing_window, focus_args, NiriWindow};
use niri_clip::gui::picture::picture;
use niri_clip::gui::search::{ci_eq, fuzzy_flags, fuzzy_score};
use niri_clip::gui::view::{hints, refresh_cur, Pane};
use niri_clip::store::Clip;

const PLAIN: Modifiers = Modifiers { control: false, alt: false };
const CTRL: Modifiers = Modifiers { control: true, alt: false };
const ALT: Modifiers = Modifiers { control: false, alt: true };

fn clip(id: i64, text: &str) -> Clip {
    Clip {
        id,
        hash: format!("h{id}"),
        text: text.to_string(),
        mime: "text/plain".to_string(),
        pinned: false,
        image_path: None,
    }
}

fn image(id: i64) -> Clip {
    Clip {
        mime: "image/png".to_string(),
        image_path: Some(format!("/i/{id}.bin")),
        ..clip(id, "[image]")
    }
}

fn three() -> Vec<Clip> {
    vec![clip(1, "alpha"), clip(2, "bravo"), clip(3, "charlie")]
}

fn open(clips: Vec<Clip>) -> App {
    App::new(clips, &Config { enable_image_preview: true, ..Config::default() })
}

fn send(a: &mut App, m: Message) -> Vec<Effect> {
    a.update(m, &mut None, 0)
}

fn press(a: &mut App, c: &str, m: Modifiers) -> Vec<Effect> {
    send(a, Message::Key(Key::Character(c.to_string()), m))
}

fn pick(source: &[Clip], idxs: &[usize]) -> Vec<i64> {
    idxs.iter().filter_map(|&i| source.get(i)).map(|c| c.id).collect()
}

#[test]
fn score_ranks_consecutive_and_word_start_higher() {
    let good = fuzzy_score("ab", "a b ab");
    let scattered = fuzzy_score("ab", "xaxb");
    assert!(good.is_some() && scattered.is_some());
    assert!(good.unwrap() > scattered.unwrap());
    assert_eq!((good, scattered), (Some(14), Some(4)));
}

#[test]
fn score_rejects_non_subsequence() {
    assert!(fuzzy_score("ac", "abcx ba").is_some());
    assert!(fuzzy_score("az", "abcx ba").is_none());
}

#[test]
fn flags_align_with_chars_and_case_insensitive() {
    let flags = fuzzy_flags("ab", "xAbc").unwrap();
    assert_eq!(flags, vec![false, true, true, false]);
    assert!(fuzzy_flags("az", "xAbc").is_none());
}

#[test]
fn scores_have_their_exact_values() {
    assert_eq!(fuzzy_score("abc", "abc"), Some(7 + 6 + 6));
    assert_eq!(fuzzy_score("", "abc"), None);
    let far = format!("{}a", "x".repeat(128));
    assert_eq!(fuzzy_score("a", &far), Some(2 - 2));
    assert_eq!(fuzzy_score("历", "剪历"), Some(2));
    assert_eq!(fuzzy_flags("", "ab"), Some(vec![false, false]));
    assert!(ci_eq('A', 'a') && ci_eq('历', '历') && !ci_eq('É', 'é'));
}

#[test]
fn search_hit_indices_resolve_against_search_hits() {
    let clips = three();
    let hits = vec![clip(2, "bravo"), clip(3, "charlie")];
    let (from_search, idxs) = compute_filtered("ra", &clips, &hits, "ra", 0, 0);
    assert!(from_search);
    assert_eq!(pick(&hits, &idxs), vec![2]);
}

#[test]
fn search_hits_longer_than_window_does_not_panic() {
    let clips = vec![clip(1, "aaa")];
    let hits = vec![clip(9, "aaa"), clip(8, "aab"), clip(7, "aac")];
    let (from_search, idxs) = compute_filtered("aa", &clips, &hits, "aa", 0, 0);
    assert!(from_search);
    assert!(idxs.iter().all(|&i| i < hits.len()));
    assert_eq!(pick(&hits, &idxs).len(), 3);
}

#[test]
fn stale_search_hits_fall_back_to_loaded_window() {
    let clips = vec![clip(1, "alpha"), clip(2, "bravo")];
    let hits = vec![clip(3, "charlie")];
    let (from_search, idxs) = compute_filtered("ra", &clips, &hits, "ra", 7, 9);
    assert!(!from_search);
    assert_eq!(pick(&clips, &idxs), vec![2]);
}

#[test]
fn empty_query_returns_full_window_in_order() {
    let clips = vec![clip(1, "a"), clip(2, "b"), clip(3, "c")];
    let (from_search, idxs) = compute_filtered("", &clips, &vec![], "", 0, 0);
    assert!(!from_search);
    assert_eq!(pick(&clips, &idxs), vec![1, 2, 3]);
}

#[test]
fn queries_are_lowered_and_the_best_comes_first() {
    let clips = vec![clip(1, "xaxb"), clip(2, "ab"), clip(3, "a b")];
    let (_, idxs) = compute_filtered("AB", &clips, &vec![], "", 0, 0);
    assert_eq!(pick(&clips, &idxs), vec![3, 2, 1]);
    // A search whose results match nowhere as a subsequence shows them all.
    let hits = vec![clip(5, "zzz"), clip(6, "yyy")];
    let (from_search, idxs) = compute_filtered("q", &clips, &hits, "q", 0, 0);
    assert!(from_search);
    assert_eq!(pick(&hits, &idxs), vec![5, 6]);
}

fn windows(json: &[u8]) -> Vec<NiriWindow> {
    let v: serde_json::Value = serde_json::from_slice(json).unwrap();
    v.as_array()
        .unwrap()
        .iter()
        .map(|w| NiriWindow {
            id: w["id"].as_u64().unwrap(),
            app_id: w["app_id"].as_str().map(str::to_string),
        })
        .collect()
}

#[test]
fn json_windows_parse_picks_app_id() {
    let sample = br#"[{"id":2,"app_id":"kitty"},{"id":17,"app_id":"niri-clip-gui"},{"id":3,"app_id":"niri-clip-gui"}]"#;
    assert_eq!(existing_window(&windows(sample)), Some(17));
    assert_eq!(focus_args(17), vec!["msg", "action", "focus-window", "--id", "17"]);
}

#[test]
fn json_windows_tolerates_missing_app_id() {
    let sample = br#"[{"id":2},{"id":3,"app_id":null}]"#;
    let wins = windows(sample);
    assert_eq!(wins.len(), 2);
    assert_eq!(existing_window(&wins), None);
}

#[test]
fn arrows_move_within_the_rows() {
    let mut a = open(three());
    assert_eq!((a.selected, a.selected_id), (0, Some(1)));
    send(&mut a, Message::Key(Key::Down, PLAIN));
    send(&mut a, Message::Key(Key::Down, PLAIN));
    send(&mut a, Message::Key(Key::Down, PLAIN));
    assert_eq!((a.selected, a.selected_id), (2, Some(3)));
    let e = send(&mut a, Message::Key(Key::Up, PLAIN));
    assert!(matches!(e[..], [Effect::Scroll]));
    assert_eq!(a.selected_id, Some(2));
    let mut none = open(vec![]);
    assert!(send(&mut none, Message::Key(Key::Down, PLAIN)).is_empty());
}

#[test]
fn a_query_is_searched_and_stale_results_are_dropped() {
    let mut a = open(three());
    let e = send(&mut a, Message::Query("char".into()));
    assert!(matches!(&e[..], [Effect::Scroll, Effect::Search { query, gen: 0 }] if query == "char"));
    assert_eq!(a.selected_id, Some(3));
    assert_eq!(a.counter(), "1/3");
    assert!(send(&mut a, Message::Query("char".into())).is_empty());
    let other = Message::SearchDone { query: "old".into(), gen: 0, hits: vec![clip(7, "old")] };
    send(&mut a, other);
    assert_eq!(a.selected_id, Some(3));
    let hits = vec![clip(9, "charta"), clip(3, "charlie")];
    send(&mut a, Message::SearchDone { query: "char".into(), gen: 0, hits });
    assert_eq!(a.selected_id, Some(3));
    assert_eq!(a.counter(), "2/3");
}

#[test]
fn the_selection_follows_its_entry() {
    let mut a = open(three());
    send(&mut a, Message::Key(Key::Down, PLAIN));
    let e = send(&mut a, Message::ListReloaded(Some(vec![clip(9, "new"), clip(1, "a"), clip(2, "b")])));
    assert!(matches!(e[..], [Effect::Scroll]));
    assert_eq!((a.selected, a.selected_id), (2, Some(2)));
    send(&mut a, Message::DeleteFinished { ok: true, clips: Some(vec![clip(9, "new"), clip(1, "a")]) });
    assert_eq!((a.selected, a.selected_id), (1, Some(1)));
    send(&mut a, Message::DeleteReloaded(Some(vec![])));
    assert_eq!((a.selected, a.selected_id), (0, None));
}

#[test]
fn pinned_entries_are_deleted_at_the_second_request() {
    let mut a = open(vec![Clip { pinned: true, ..clip(4, "keep") }, clip(5, "plain")]);
    let mut file = None;
    let x = || Message::Key(Key::Character("x".into()), CTRL);
    assert!(a.update(x(), &mut file, 1000).is_empty());
    assert!(a.confirm_delete);
    assert_eq!(file.as_deref(), Some("4 1000"));
    let e = a.update(x(), &mut file, 1001);
    assert!(matches!(e[..], [Effect::Delete { id: 4 }]));
    assert!(!a.confirm_delete);
    assert_eq!(file, None);
    // Too late, the request counts as the first again.
    a.update(x(), &mut file, 2000);
    assert!(a.update(x(), &mut file, 60_000).is_empty());
    assert!(a.confirm_delete);
    // Escape gives it up, and closes the window only then.
    assert!(a.update(Message::Key(Key::Escape, PLAIN), &mut file, 60_001).is_empty());
    assert_eq!(file, None);
    let e = a.update(Message::Key(Key::Escape, PLAIN), &mut file, 60_002);
    assert!(matches!(e[..], [Effect::Exit]));
    a.update(Message::Key(Key::Down, PLAIN), &mut file, 60_003);
    let e = a.update(x(), &mut file, 60_004);
    assert!(matches!(e[..], [Effect::Delete { id: 5 }]));
}

#[test]
fn digits_pick_rows() {
    let clips: Vec<Clip> = (1..=11).map(|i| clip(i, "t")).collect();
    let mut a = open(clips);
    let e = press(&mut a, "3", PLAIN);
    assert!(matches!(e[..], [Effect::Copy { id: 3, exit: true }]));
    let e = press(&mut a, "0", PLAIN);
    assert!(matches!(e[..], [Effect::Copy { id: 10, exit: true }]));
    send(&mut a, Message::Query("t".into()));
    assert!(press(&mut a, "3", PLAIN).is_empty());
    assert!(matches!(press(&mut a, "3", ALT)[..], [Effect::Copy { id: 3, exit: true }]));
    let mut few = open(three());
    assert!(press(&mut few, "9", PLAIN).is_empty());
}

#[test]
fn keys_with_control() {
    let mut a = open(three());
    assert!(matches!(press(&mut a, "y", CTRL)[..], [Effect::Copy { id: 1, exit: false }]));
    assert!(matches!(press(&mut a, "p", CTRL)[..], [Effect::TogglePin { id: 1 }]));
    assert!(matches!(press(&mut a, "f", CTRL)[..], [Effect::FocusSearch]));
    assert!(a.search_mode);
    assert!(press(&mut a, "/", PLAIN).is_empty());
    let e = send(&mut a, Message::Key(Key::Escape, PLAIN));
    assert!(matches!(e[..], [Effect::BlurSearch, Effect::Scroll]));
    assert!(!a.search_mode);
    assert!(matches!(press(&mut a, "/", PLAIN)[..], [Effect::FocusSearch]));
    assert!(matches!(send(&mut a, Message::Key(Key::Enter, PLAIN))[..], [Effect::Copy { id: 1, exit: true }]));
}

#[test]
fn the_pointer_takes_the_selection_only_after_it_moved() {
    let mut a = open(three());
    send(&mut a, Message::Hover(2));
    assert_eq!(a.selected, 0);
    send(&mut a, Message::MouseMove);
    send(&mut a, Message::Hover(2));
    assert_eq!(a.selected_id, Some(3));
    let e = send(&mut a, Message::Pick(1));
    assert!(matches!(e[..], [Effect::Scroll, Effect::Copy { id: 2, exit: true }]));
    let e = send(&mut a, Message::PickStay(0));
    assert!(matches!(e[..], [Effect::Scroll, Effect::Copy { id: 1, exit: false }]));
    assert!(send(&mut a, Message::Pick(7)).is_empty());
}

#[test]
fn failures_are_reported() {
    let mut a = open(three());
    let e = send(&mut a, Message::CopyFinished { exit: true, ok: false });
    assert!(matches!(&e[..], [Effect::Report { message, notify: true }, Effect::Exit] if message == "复制失败"));
    let e = send(&mut a, Message::CopyFinished { exit: false, ok: true });
    assert!(matches!(e[..], [Effect::ReloadList, Effect::Scroll]));
    let e = send(&mut a, Message::PinFinished { ok: false, clips: None });
    assert!(matches!(&e[..], [Effect::Report { message, .. }] if message == "固定/取消固定失败"));
    let e = send(&mut a, Message::DeleteFinished { ok: false, clips: None });
    assert!(matches!(&e[..], [Effect::Report { message, .. }] if message == "删除失败"));
    assert!(matches!(send(&mut a, Message::Refocus)[..], [Effect::ReloadQuietly]));
}

#[test]
fn images_are_decoded_once_and_a_few_are_kept() {
    let mut a = open((1..=6).map(image).collect());
    let e = send(&mut a, Message::Tick);
    assert!(matches!(&e[..], [Effect::Decode { id: 1, path }] if path == "/i/1.bin"));
    assert!(send(&mut a, Message::Tick).is_empty());
    match a.pane() {
        Pane::Hint { text } => assert_eq!(text, "[image image/png] 解码中…"),
        other => panic!("{other:?}"),
    }
    send(&mut a, Message::ImageReady { id: 1, ok: false });
    assert!(send(&mut a, Message::Tick).is_empty());
    match a.pane() {
        Pane::Hint { text } => assert_eq!(text, "[image image/png] 数据文件缺失或无法解码"),
        other => panic!("{other:?}"),
    }
    for id in 2..=6 {
        send(&mut a, Message::ImageReady { id, ok: true });
    }
    assert_eq!(a.cached, vec![6, 5, 4, 3]);
    for _ in 0..5 {
        send(&mut a, Message::Key(Key::Down, PLAIN));
    }
    assert!(matches!(a.pane(), Pane::Image { id: 6 }));
}

#[test]
fn rows_are_drawn_with_marks_and_matches() {
    let mut a = open(vec![clip(1, "x\nab"), Clip { pinned: true, ..clip(2, "cab") }]);
    let rows = a.rows(&Some("h2".to_string()));
    assert_eq!(rows[0].prefix, "❯ 1    ");
    assert_eq!(rows[1].prefix, "  2 ▶◆ ");
    assert!(rows[0].selected && !rows[1].selected);
    assert_eq!(rows[0].runs.len(), 1);
    assert_eq!((rows[0].runs[0].text.as_str(), rows[0].runs[0].hit), ("x ⏎ ab", false));
    send(&mut a, Message::Query("AB".into()));
    let runs: Vec<Vec<(String, bool)>> = a
        .rows(&None)
        .into_iter()
        .map(|r| r.runs.into_iter().map(|x| (x.text, x.hit)).collect())
        .collect();
    assert_eq!(runs[0], vec![("x ⏎ ".to_string(), false), ("ab".to_string(), true)]);
    assert_eq!(runs[1], vec![("c".to_string(), false), ("ab".to_string(), true)]);
    assert_eq!(a.counter(), "2/2");
}

#[test]
fn the_tenth_row_is_number_zero_and_the_next_has_none() {
    let a = open((1..=11).map(|i| clip(i, "t")).collect());
    let rows = a.rows(&None);
    assert_eq!(rows[8].prefix, "  9    ");
    assert_eq!(rows[9].prefix, "  0    ");
    assert_eq!(rows[10].prefix, "       ");
}

#[test]
fn the_pane_shows_texts_and_says_what_is_cut() {
    let a = open(vec![clip(1, &"l↵\n".repeat(81))]);
    match a.pane() {
        Pane::Text { text } => assert_eq!(text, format!("{}…", "l⏎\n".repeat(80))),
        other => panic!("{other:?}"),
    }
    let off = App::new(vec![clip(1, "a")], &Config { enable_preview: false, ..Config::default() });
    assert!(matches!(off.pane(), Pane::Nothing));
    assert!(matches!(open(vec![]).pane(), Pane::Nothing));
}

#[test]
fn the_pointer_to_the_current_item_is_read_twice_a_second() {
    assert!(refresh_cur(None, 0));
    assert!(!refresh_cur(Some(1000), 1499));
    assert!(refresh_cur(Some(1000), 1500));
    assert!(!refresh_cur(Some(1000), 900));
    assert_eq!(hints().len(), 7);
}

#[test]
fn data_files_become_pictures() {
    // Two pixels of a PNG file, red and blue.
    let png: Vec<u8> = vec![
        0x89, 0x50, 0x4e, 0x47, 0x0d, 0x0a, 0x1a, 0x0a, 0x00, 0x00, 0x00, 0x0d, 0x49, 0x48, 0x44, 0x52,
        0x00, 0x00, 0x00, 0x02, 0x00, 0x00, 0x00, 0x01, 0x08, 0x02, 0x00, 0x00, 0x00, 0x7b, 0x40, 0xe8,
        0xdd, 0x00, 0x00, 0x00, 0x0d, 0x49, 0x44, 0x41, 0x54, 0x78, 0x9c, 0x63, 0xf8, 0xcf, 0x00, 0x04,
        0xff, 0x01, 0x07, 0x00, 0x01, 0xff, 0xe2, 0x23, 0x9e, 0x59, 0x00, 0x00, 0x00, 0x00, 0x49, 0x45,
        0x4e, 0x44, 0xae, 0x42, 0x60, 0x82,
    ];
    let p = picture(&Some(png.clone())).expect("a picture");
    assert_eq!((p.width, p.height), (2, 1));
    assert_eq!(p.rgba, vec![255, 0, 0, 255, 0, 0, 255, 255]);
    assert!(picture(&Some(b"no image".to_vec())).is_none());
    assert!(picture(&Some(png[..20].to_vec())).is_none());
    assert!(picture(&None).is_none());
}

#[test]
fn scores_do_not_depend_on_case_or_on_what_follows() {
    let s = fuzzy_score("clip", "my clipboard");
    assert_eq!(s, Some(7 + 6 + 6 + 6));
    assert_eq!(fuzzy_score("clip", "MY CLIPBOARD"), s);
    assert_eq!(fuzzy_score("CLIP", "My cLiPbOaRd"), s);
    assert_eq!(fuzzy_score("clip", "my clipboard, clip by clip"), s);
    assert_eq!(fuzzy_score("b", "Ab"), fuzzy_score("b", "ab"));
}

#[test]
fn pictures_have_the_pixels_of_their_files() {
    let grey = image::GrayImage::from_fn(256, 1, |x, _| image::Luma([x as u8]));
    let mut png = std::io::Cursor::new(Vec::new());
    grey.write_to(&mut png, image::ImageFormat::Png).unwrap();
    let p = picture(&Some(png.into_inner())).expect("a picture");
    assert_eq!((p.width, p.height), (256, 1));
    for (i, pixel) in p.rgba.chunks(4).enumerate() {
        let g = i as u8;
        assert_eq!(pixel, [g, g, g, 255]);
    }
    let plain = image::RgbaImage::from_pixel(3, 2, image::Rgba([1, 2, 3, 4]));
    let mut webp = std::io::Cursor::new(Vec::new());
    plain.write_to(&mut webp, image::ImageFormat::WebP).unwrap();
    let p = picture(&Some(webp.into_inner())).expect("a picture");
    assert_eq!(p.rgba, [1, 2, 3, 4].repeat(6));
    let white = image::RgbImage::from_pixel(9, 9, image::Rgb([255, 255, 255]));
    let mut jpeg = std::io::Cursor::new(Vec::new());
    white.write_to(&mut jpeg, image::ImageFormat::Jpeg).unwrap();
    let p = picture(&Some(jpeg.into_inner())).expect("a picture");
    assert_eq!((p.width, p.height), (9, 9));
    assert_eq!(p.rgba, vec![255; 4 * 81]);
}
