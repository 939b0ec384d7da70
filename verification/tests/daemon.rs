//! Capturing.

use niri_clip::config::{Config, Dirs};
use niri_clip::daemon::{
    after_image_probe, capture_image_if_enabled, image_step, install_service, poll_step,
    read_limit, run, store_from_stdin, try_system_capture, watch_shell_command,
    wl_paste_watch_args, CaptureAction, ClipboardRead, ImageAction, Mode, PollAction, StdinAction,
    SERVICE_UNIT,
};
use niri_clip::store::{insert, Store};

#[test]
fn watch_command_bounds_each_capture_with_timeout() {
    let cmd = watch_shell_command("/usr/bin/niri-clip", 7);
    assert_eq!(cmd, "exec timeout 7s /usr/bin/niri-clip store");
    assert!(cmd.starts_with("exec timeout ") && cmd.contains("s /usr/bin"));
    let spaced = watch_shell_command("/opt/my tools/niri-clip", 2);
    assert_eq!(spaced, "exec timeout 2s /opt/my tools/niri-clip store");
}

#[test]
fn primary_watch_adds_selection_flag() {
    let exe = "/usr/bin/niri-clip";
    let plain = wl_paste_watch_args(exe, 5, false);
    let primary = wl_paste_watch_args(exe, 5, true);
    assert!(!plain.contains(&"--primary".to_string()));
    assert!(primary.contains(&"--primary".to_string()));
    assert!(primary.last().unwrap().contains("timeout 5s"));
    let mut a = plain.clone();
    let mut b = primary.clone();
    a.retain(|x| x != "--primary");
    b.retain(|x| x != "--primary");
    assert_eq!(a, b);
}

#[test]
fn embedded_service_unit_points_to_cargo_bin() {
    assert!(SERVICE_UNIT.contains("%h/.cargo/bin/niri-clip"));
    assert!(SERVICE_UNIT.contains("Restart="));
    assert_eq!(SERVICE_UNIT.lines().nth(7), Some("ExecStart=%h/.cargo/bin/niri-clip daemon"));
}

#[test]
fn oversize_stdin_reports_text_limit_and_stores_nothing() {
    let cfg = Config::default();
    let sent = vec![0xFFu8; 2 * 1024 * 1024];
    let read = read_limit(cfg.max_clip_bytes) as usize;
    assert_eq!(read, 1024 * 1024 + 1);
    match store_from_stdin(sent[..read].to_vec(), &cfg) {
        StdinAction::Oversize { message } => {
            assert!(message.contains("max_clip_bytes=1048576"));
            assert!(!message.contains("max_image_bytes"));
        }
        other => panic!("{other:?}"),
    }
}

#[test]
fn text_stdin_still_captures_normally() {
    let mut s = Store::new();
    match store_from_stdin(b"niri-clip-stdin-smoke-8f3a\n".to_vec(), &Config::default()) {
        StdinAction::Ingest { text } => assert!(insert(&mut s, text, None, None, 1).unwrap()),
        other => panic!("{other:?}"),
    }
    assert_eq!(s.rows[0].text, "niri-clip-stdin-smoke-8f3a");
}

#[test]
fn large_payloads_may_be_images_and_binary_ones_are_looked_up() {
    let images = Config { enable_image_preview: true, max_clip_bytes: 4, ..Config::default() };
    assert!(matches!(store_from_stdin(vec![0xff; 5], &images), StdinAction::ProbeImage));
    assert_eq!(after_image_probe(true, &images), None);
    assert_eq!(
        after_image_probe(false, &images).as_deref(),
        Some("条目超过 max_clip_bytes=4 字节")
    );
    let binary = store_from_stdin(vec![0xff, 0xfe], &images);
    assert!(matches!(binary, StdinAction::ReadClipboard { binary: true }));
    let nothing = store_from_stdin(vec![], &images);
    assert!(matches!(nothing, StdinAction::ReadClipboard { binary: false }));
}

#[test]
fn clipboard_reads_are_judged() {
    let cfg = Config { max_clip_bytes: 6, ..Config::default() };
    let on = |r: ClipboardRead| try_system_capture(r, &cfg);
    assert!(matches!(
        on(ClipboardRead::Bytes(" 剪 ".as_bytes().to_vec())),
        CaptureAction::Ingest { text } if text == "剪"
    ));
    assert!(matches!(on(ClipboardRead::Bytes(b" \n".to_vec())), CaptureAction::Nothing));
    assert!(matches!(on(ClipboardRead::Bytes(vec![0x80])), CaptureAction::NotUtf8));
    assert!(matches!(on(ClipboardRead::Bytes(vec![b'a'; 7])), CaptureAction::Oversize { .. }));
    assert!(matches!(on(ClipboardRead::Broken), CaptureAction::Nothing));
    assert!(matches!(on(ClipboardRead::NoText), CaptureAction::CaptureImage));
    assert!(matches!(on(ClipboardRead::Failed), CaptureAction::Unreachable));
}

#[test]
fn image_types_are_tried_in_order_up_to_the_limit() {
    let off = Config::default();
    assert!(capture_image_if_enabled(&off).is_empty());
    let on = Config { enable_image_preview: true, max_image_bytes: 2, ..Config::default() };
    assert_eq!(capture_image_if_enabled(&on), vec!["image/png", "image/jpeg", "image/webp"]);
    assert!(matches!(image_step(&None, &on), ImageAction::TryNext));
    assert!(matches!(image_step(&Some(vec![]), &on), ImageAction::TryNext));
    assert!(matches!(image_step(&Some(vec![1, 2]), &on), ImageAction::Store));
    match image_step(&Some(vec![1, 2, 3]), &on) {
        ImageAction::Oversize { message } => assert_eq!(message, "图片超过 max_image_bytes=2 字节"),
        other => panic!("{other:?}"),
    }
    assert_eq!(read_limit(2), 3);
}

#[test]
fn polling_handles_the_same_content_once() {
    let mut last = None;
    let hello = || ClipboardRead::Bytes(b"hello\n".to_vec());
    let first = poll_step(hello(), 10, &mut last);
    assert!(matches!(first, PollAction::Insert { text } if text == "hello"));
    assert!(matches!(poll_step(hello(), 10, &mut last), PollAction::Unchanged));
    let big = || ClipboardRead::Bytes(vec![b'a'; 11]);
    assert!(matches!(poll_step(big(), 10, &mut last), PollAction::Oversize { .. }));
    assert!(matches!(poll_step(big(), 10, &mut last), PollAction::Unchanged));
    let none = poll_step(ClipboardRead::NoText, 10, &mut last);
    assert!(matches!(none, PollAction::CaptureImage { failed: false }));
    let failed = poll_step(ClipboardRead::Failed, 10, &mut last);
    assert!(matches!(failed, PollAction::CaptureImage { failed: true }));
    assert!(matches!(poll_step(hello(), 10, &mut last), PollAction::Insert { .. }));
}

#[test]
fn modes_of_the_background_process() {
    let cfg = Config { capture_primary: true, ..Config::default() };
    assert_eq!(run(&cfg, true, false), Mode::Watch { timeout_secs: 5, primary: true });
    assert_eq!(run(&cfg, false, true), Mode::Poll);
    assert_eq!(run(&cfg, false, false), Mode::Impossible);
}

#[test]
fn the_unit_goes_to_the_user_directory() {
    let mut d = Dirs {
        xdg_state_home: None,
        home: None,
        config: Some("/c".into()),
        cache: None,
        temp: "/tmp".into(),
    };
    assert_eq!(install_service(&d).as_deref(), Some("/c/systemd/user/niri-clip.service"));
    d.config = None;
    assert_eq!(install_service(&d), None);
}
