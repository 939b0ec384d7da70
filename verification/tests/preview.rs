//! Previews.

use niri_clip::preview::{
    chafa_args, preview_multiline, preview_text, render_preview, MULTILINE_CLI, MULTILINE_GUI,
};
use niri_clip::store::Clip;

fn text_clip(s: &str) -> Clip {
    Clip {
        id: 1,
        hash: String::new(),
        text: s.to_string(),
        mime: "text/plain".to_string(),
        pinned: false,
        image_path: None,
    }
}

#[test]
fn preview_text_truncates_to_width_with_ellipsis() {
    let c = text_clip(&"x".repeat(200));
    let out = preview_text(&c, 10);
    assert_eq!(out.chars().count(), 11);
    assert!(out.ends_with('…'));
}

#[test]
fn preview_text_flattens_newlines() {
    let c = text_clip("line1\nline2\nline3");
    let out = preview_text(&c, 100);
    assert!(out.contains("line1 ↵ line2 ↵ line3"));
    assert_eq!(out.lines().count(), 1);
}

#[test]
fn preview_text_short_input_passes_through() {
    let c = text_clip("hello");
    assert_eq!(preview_text(&c, 100), "hello");
    assert_eq!(preview_text(&c, 5), "hello");
    assert_eq!(preview_text(&c, 0), "");
}

#[test]
fn preview_text_multibyte_truncation_is_char_aligned() {
    let c = text_clip("你好世界你好世界");
    let out = preview_text(&c, 4);
    assert_eq!(out.chars().count(), 5);
    assert!(out.starts_with("你好世界"));
}

#[test]
fn render_preview_text_clip_is_empty() {
    let c = text_clip("plain");
    assert_eq!(render_preview(&c, false, None, false), "");
}

#[test]
fn render_preview_image_without_path_or_file_degrades() {
    let mut c = text_clip("[image placeholder]");
    c.mime = "image/png".to_string();
    assert!(render_preview(&c, false, None, false).contains("未记录数据文件"));
    c.image_path = Some("/nonexistent/niri-clip-ut/42.bin".to_string());
    assert!(render_preview(&c, false, None, false).contains("丢失"));
}

#[test]
fn render_preview_takes_the_best_that_is_there() {
    let mut c = text_clip("[image placeholder]");
    c.mime = "image/png".to_string();
    c.image_path = Some("/i/1.bin".to_string());
    assert_eq!(render_preview(&c, true, Some("art".into()), true), "art");
    assert_eq!(render_preview(&c, true, None, true), "[image image/png - kitty icat: /i/1.bin]");
    assert_eq!(render_preview(&c, true, None, false), "[image/png - 预览需要安装 chafa]");
    assert_eq!(chafa_args("/i/1.bin").last().unwrap(), "/i/1.bin");
}

#[test]
fn a_cut_preview_with_line_feeds_keeps_its_width() {
    let c = text_clip("ab\ncd and more");
    assert_eq!(preview_text(&c, 4), "ab ↵…");
}

#[test]
fn multiline_previews_tell_what_is_left_out() {
    let m = preview_multiline(&text_clip("a\nb\r\nccc"), 5, 5);
    assert_eq!((m.text.as_str(), m.truncated), ("a\nb\nccc\n", false));
    let m = preview_multiline(&text_clip("a\nb\nc"), 2, 5);
    assert_eq!((m.text.as_str(), m.truncated), ("a\nb\n", true));
    let m = preview_multiline(&text_clip("abcdef"), 2, 5);
    assert_eq!((m.text.as_str(), m.truncated), ("abcde\n", true));
    assert_eq!((MULTILINE_CLI, MULTILINE_GUI), ((100, 300), (80, 300)));
}

#[test]
fn marks_for_line_feeds_count_toward_the_width() {
    assert_eq!(preview_text(&text_clip("a\nb\nc"), 5), "a ↵ b…");
    assert_eq!(preview_text(&text_clip("a\nb"), 5), "a ↵ b");
    assert_eq!(preview_text(&text_clip("\n\n"), 2), " ↵…");
    for w in 0..12 {
        assert!(preview_text(&text_clip("x\ny\n\nz"), w).chars().count() <= w + 1);
    }
}
