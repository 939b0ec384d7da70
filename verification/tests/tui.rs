//! The menu in a terminal.

use niri_clip::config::Config;
use niri_clip::store::{hash_text, insert, search, toggle_pin, touch_current, Clip, Store};
use niri_clip::tui::backend::{
    backend, fzf_version_ok, gui_binary, gui_in_home, gui_sibling, respawn_args, terminal_wrap,
    version_cache_is_fresh, Backend, Machine, Refusal, Start, NOTICE_NO_TTY, NOTICE_OLD_FZF,
};
use niri_clip::tui::menu::{
    fuzzel_args, fuzzel_input, fuzzel_picked, fzf_args, fzf_input, fzf_picked, header, menu_clips,
    render_row, row_marks, HEADER_ABSENT, PENDING_MARK,
};
use niri_clip::tui::{
    list_raw, parse_version, preview_id, run, search_raw, FZF_ID_NTH, FZF_MIN, FZF_NTH,
    FZF_ORIGINAL_COLS, FZF_WITH_NTH,
};

fn clip(id: i64, text: &str, pinned: bool) -> Clip {
    Clip {
        id,
        hash: format!("h{id}"),
        text: text.to_string(),
        mime: "text/plain".to_string(),
        pinned,
        image_path: None,
    }
}

fn machine() -> Machine {
    Machine {
        gui: None,
        has_fzf: true,
        fzf_ok: true,
        has_fuzzel: false,
        has_tty: true,
        terminal: None,
    }
}

fn with_backend(name: &str) -> Config {
    Config { tui_backend: name.to_string(), ..Config::default() }
}

#[test]
fn parse_version_handles_fzf_output() {
    assert_eq!(parse_version("0.74.4 (c0252b6)"), Some((0, 74)));
    assert_eq!(parse_version("0.71.0"), Some((0, 71)));
    assert_eq!(parse_version("0.59.0 (deb5468)"), Some((0, 59)));
}

#[test]
fn parse_version_rejects_garbage() {
    assert_eq!(parse_version("garbage"), None);
    assert_eq!(parse_version(""), None);
}

#[test]
fn version_gate_matches_feature_floor() {
    assert!((0, 70) < FZF_MIN);
    assert!((0, 71) >= FZF_MIN);
    assert!((0, 74) >= FZF_MIN);
}

#[test]
fn fzf_nth_targets_the_preview_column() {
    let hidden_cols = 1;
    let transformed_cols = FZF_ORIGINAL_COLS - hidden_cols;
    let nth_first: usize = FZF_NTH.trim_end_matches("..").parse().expect("FZF_NTH 形如 \"4..\"");
    assert_eq!(nth_first, transformed_cols);
    assert!(FZF_WITH_NTH.split(',').any(|c| c.starts_with('5')));
    assert_eq!(FZF_ID_NTH, "4");
}

#[test]
fn versions_are_held_against_the_floor() {
    assert!(fzf_version_ok("0.71.0"));
    assert!(fzf_version_ok("1.0"));
    assert!(!fzf_version_ok("0.70.9 (x)"));
    assert!(!fzf_version_ok("nothing"));
    assert_eq!(parse_version("4294967296.1"), None);
    assert_eq!(parse_version("7"), None);
}

#[test]
fn a_noted_version_is_good_while_the_program_is_not_newer() {
    assert!(version_cache_is_fresh(Some(5), Some(5)));
    assert!(!version_cache_is_fresh(Some(6), Some(5)));
    assert!(!version_cache_is_fresh(None, Some(5)));
    assert!(!version_cache_is_fresh(Some(5), None));
}

#[test]
fn the_window_is_looked_for_in_three_places() {
    let p = |s: &str| Some(s.to_string());
    assert_eq!(gui_binary(p("a"), p("b"), p("c")), p("a"));
    assert_eq!(gui_binary(None, p("b"), p("c")), p("b"));
    assert_eq!(gui_binary(None, None, p("c")), p("c"));
    assert_eq!(gui_binary(None, None, None), None);
    assert_eq!(gui_sibling("/usr/bin"), "/usr/bin/niri-clip-gui");
    assert_eq!(gui_in_home("/home/u"), "/home/u/.cargo/bin/niri-clip-gui");
}

#[test]
fn settings_choose_the_program() {
    assert_eq!(backend("fuzzel", true, true), Backend::Fuzzel);
    assert_eq!(backend("fzf", true, false), Backend::Fzf);
    assert_eq!(backend("native", false, true), Backend::Native);
    assert_eq!(backend("auto", true, true), Backend::Native);
    assert_eq!(backend("auto", false, true), Backend::Fzf);
    assert_eq!(backend("whatever", false, false), Backend::Fuzzel);
}

#[test]
fn terminals_are_tried_from_the_fastest() {
    let t = terminal_wrap(&vec!["wezterm".into(), "ghostty".into()]).unwrap();
    assert_eq!((t.name.as_str(), t.prefix.clone()), ("ghostty", vec!["-e".to_string()]));
    let w = terminal_wrap(&vec!["wezterm".into()]).unwrap();
    assert_eq!(w.prefix, vec!["start", "--"]);
    assert!(terminal_wrap(&vec!["xterm".into()]).is_none());
    assert_eq!(
        respawn_args(&t, "/bin/niri-clip", "/s/tui.log"),
        vec!["-e", "sh", "-c", "exec '/bin/niri-clip' tui >> '/s/tui.log' 2>&1"]
    );
}

#[test]
fn every_way_to_show_the_menu() {
    let auto = with_backend("auto");
    let m = Machine { gui: Some("/g".into()), has_tty: false, ..machine() };
    assert!(matches!(run(&auto, m), Start::Gui { path } if path == "/g"));
    assert!(matches!(run(&auto, machine()), Start::Fzf));
    let m = Machine { fzf_ok: false, has_fuzzel: true, ..machine() };
    assert!(matches!(run(&auto, m), Start::Fuzzel));
    let t = terminal_wrap(&vec!["foot".into()]);
    let m = Machine { has_tty: false, terminal: t.clone(), ..machine() };
    assert!(matches!(run(&auto, m), Start::InTerminal { terminal } if terminal.name == "foot"));
    let m = Machine { has_tty: false, has_fuzzel: true, ..machine() };
    assert!(matches!(run(&auto, m), Start::Fuzzel));

    let native = with_backend("native");
    assert!(matches!(run(&native, machine()), Start::Fzf));
    let m = Machine { has_fzf: false, ..machine() };
    assert!(matches!(run(&native, m), Start::Fuzzel));
    let m = Machine { fzf_ok: false, has_fuzzel: true, ..machine() };
    assert!(matches!(run(&native, m), Start::Fuzzel));
    let m = Machine { has_tty: false, terminal: t, ..machine() };
    assert!(matches!(run(&native, m), Start::InTerminal { .. }));
}

#[test]
fn every_refusal() {
    let cfg = with_backend("fzf");
    let m = Machine { has_tty: false, ..machine() };
    match run(&cfg, m) {
        Start::Refused { why, notice } => {
            assert_eq!(why, Refusal::NoTerminal);
            assert_eq!(notice.as_deref(), Some(NOTICE_NO_TTY));
        }
        other => panic!("{other:?}"),
    }
    let m = Machine { fzf_ok: false, ..machine() };
    match run(&cfg, m) {
        Start::Refused { why, notice } => {
            assert_eq!(why, Refusal::FzfTooOld);
            assert_eq!(notice.as_deref(), Some(NOTICE_OLD_FZF));
        }
        other => panic!("{other:?}"),
    }
    let quiet = Config { notify_enabled: false, ..with_backend("native") };
    let m = Machine { has_tty: false, ..machine() };
    assert!(matches!(
        run(&quiet, m),
        Start::Refused { why: Refusal::FzfNeedsTty, notice: None }
    ));
}

#[test]
fn rows_have_five_columns_and_lead_back_to_the_entry() {
    let cfg = Config::default();
    let c = clip(42, "two\nlines", true);
    let cur = Some("h42".to_string());
    let row = render_row(3, &cur, &c, &cfg, PENDING_MARK);
    assert_eq!(row, format!("3\t▶\t★\t42\ttwo ↵ lines{PENDING_MARK}"));
    assert_eq!(row.split('\t').count(), FZF_ORIGINAL_COLS);
    assert_eq!(fzf_picked(&format!("{row}\n")), Some(42));
    assert_eq!(row_marks(&None, &clip(1, "", false)), (" ".to_string(), " ".to_string()));
}

#[test]
fn what_fzf_prints_is_read_with_care() {
    assert_eq!(fzf_picked(""), None);
    assert_eq!(fzf_picked("1\t \t \n"), None);
    assert_eq!(fzf_picked("1\t \t \t0\tx"), None);
    assert_eq!(fzf_picked("1\t \t \tx\tx"), None);
    assert_eq!(fzf_picked("2\t \t \t-7\t\n3\t \t \t8\t\n"), Some(-7));
}

#[test]
fn fuzzel_lines_lead_back_to_the_entry() {
    let cfg = Config::default();
    let clips = vec![clip(8, "12 apples", true), clip(9, "plain", false)];
    let cur = Some("h8".to_string());
    let input = fuzzel_input(&clips, &cur, &cfg);
    assert_eq!(input, "1. ▶★ 8 12 apples\n2.  9 plain\n");
    let picked: Vec<Option<i64>> = input.lines().map(fuzzel_picked).collect();
    assert_eq!(picked, vec![Some(8), Some(9)]);
    assert_eq!(fuzzel_picked("no number"), None);
    assert_eq!(fuzzel_picked("1. 0 x"), None);
    assert_eq!(fuzzel_args(), vec!["--dmenu", "--prompt=剪贴板> "]);
}

#[test]
fn the_header_tells_that_the_current_item_is_missing() {
    let clips = vec![clip(1, "a", false)];
    let here = header(&clips, &Some("h1".to_string()));
    let gone = header(&clips, &Some("other".to_string()));
    assert_eq!(gone, format!("{here}{HEADER_ABSENT}"));
    assert_eq!(header(&clips, &None), here);
}

#[test]
fn fzf_arguments_name_the_columns_and_the_program() {
    let v = fzf_args("/bin/nc", "H", true);
    assert_eq!(v.len(), 24);
    assert!(v.contains(&"--nth=4..".to_string()));
    assert!(v.contains(&"--with-nth=1,2,3,5..".to_string()));
    assert!(v.contains(&"--id-nth=4".to_string()));
    assert!(v.contains(&"--header=H".to_string()));
    assert!(v.contains(&"--preview=/bin/nc preview {4}".to_string()));
    assert!(v.contains(
        &"--bind=ctrl-x:execute-silent(/bin/nc delete --fzf {4})+reload-sync(/bin/nc list-raw)"
            .to_string()
    ));
    assert_eq!(
        v[4],
        "--bind=alt-1:pos(1)+accept,alt-2:pos(2)+accept,alt-3:pos(3)+accept,\
         alt-4:pos(4)+accept,alt-5:pos(5)+accept,alt-6:pos(6)+accept,alt-7:pos(7)+accept,\
         alt-8:pos(8)+accept,alt-9:pos(9)+accept,space:jump,\
         ctrl-y:execute-silent(/bin/nc copy {4})"
    );
    assert!(fzf_args("/bin/nc", "H", false).contains(&"--preview=echo {5..}".to_string()));
}

#[test]
fn the_rows_of_the_menu_mark_what_is_pending() {
    let mut s = Store::new();
    let cfg = Config::default();
    insert(&mut s, "first".into(), None, None, 1).unwrap();
    insert(&mut s, "second".into(), None, None, 2).unwrap();
    toggle_pin(&mut s, 1).unwrap();
    touch_current(&mut s, &hash_text("second"));
    let mut file = Some("1 1000".to_string());
    let rows = list_raw(&s, &cfg, &mut file, 2000);
    assert_eq!(rows[0], "1\t▶\t \t2\tsecond");
    assert_eq!(rows[1], format!("2\t \t★\t1\tfirst{PENDING_MARK}"));
    assert_eq!(file.as_deref(), Some("1 1000"));
    let late = list_raw(&s, &cfg, &mut file, 20_000);
    assert_eq!(late[1], "2\t \t★\t1\tfirst");
    assert_eq!(file, None);

    let input = fzf_input(&menu_clips(&s, &cfg), &Some(hash_text("second")), &cfg);
    assert_eq!(input, "1\t▶\t \t2\tsecond\n2\t \t★\t1\tfirst\n");
    let found = search_raw(&s, "fi", 10, &vec![], &cfg);
    assert_eq!(found, vec!["1\t \t★\t1\tfirst"]);
    assert_eq!(search(&s, "fi", 10, &vec![]).len(), 1);
}

#[test]
fn the_menu_is_no_longer_than_the_history_keeps() {
    let mut s = Store::new();
    for i in 0..4 {
        insert(&mut s, format!("n{i}"), None, None, i).unwrap();
    }
    let cfg = Config { max_items: 3, ..Config::default() };
    assert_eq!(menu_clips(&s, &cfg).len(), 3);
}

#[test]
fn previews_on_the_command_line() {
    let cfg = Config { enable_image_preview: true, ..Config::default() };
    assert_eq!(preview_id(&clip(1, "a\nb", false), &cfg, ""), "a\nb\n");
    let long = "y".repeat(301);
    let shown = preview_id(&clip(1, &long, false), &cfg, "");
    assert_eq!(shown, format!("{}\n… (预览已截断，完整内容 301 字节)\n", "y".repeat(300)));
    let mut img = clip(1, "[image image/png 3 bytes]", false);
    img.mime = "image/png".into();
    assert_eq!(preview_id(&img, &cfg, "art"), "art\n");
    assert_eq!(preview_id(&img, &cfg, ""), "[image image/png]\n[image image/png 3 bytes]\n");
    let off = Config::default();
    assert_eq!(preview_id(&img, &off, "art"), "[image image/png]\n[image image/png 3 bytes]\n");
}

#[test]
fn a_tab_in_a_text_makes_no_column() {
    let row = render_row(1, &None, &clip(7, "a\tb", false), &Config::default(), "");
    assert_eq!(row, "1\t \t \t7\ta b");
    assert_eq!(row.split('\t').count(), FZF_ORIGINAL_COLS);
    let both = render_row(1, &None, &clip(7, "\t\n\t", false), &Config::default(), PENDING_MARK);
    assert_eq!(both, format!("1\t \t \t7\t  ↵  {PENDING_MARK}"));
    assert_eq!(fzf_picked(&both), Some(7));
}
