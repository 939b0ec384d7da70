//! Capturing the clipboard: what is done with a payload, when images are tried,
//! and how the background process starts and polls.

use crate::config;
use crate::config::{Config, Dirs};
use crate::store::digest;
use crate::text;
use vstd::prelude::*;

verus! {

/// The systemd user unit that keeps the background process running.
pub const SERVICE_UNIT: &'static str =
    "[Unit]\nDescription=niri-clip clipboard history daemon\nPartOf=graphical-session.target\nAfter=graphical-session.target\n\n[Service]\nType=simple\nExecStart=%h/.cargo/bin/niri-clip daemon\nRestart=on-failure\nRestartSec=2\n\n[Install]\nWantedBy=graphical-session.target\n";

/// The image types that are captured, in the order in which they are tried.
pub fn image_mimes() -> (v: Vec<String>)
    ensures
        text::texts(v@) == seq!["image/png"@, "image/jpeg"@, "image/webp"@],
{
    let mut v: Vec<String> = Vec::new();
    v.push("image/png".to_owned());
    v.push("image/jpeg".to_owned());
    v.push("image/webp".to_owned());
    v
}

/// The command that stores one capture and is abandoned after a time.
pub open spec fn watch_command(exe: Seq<char>, timeout_secs: nat) -> Seq<char> {
    "exec timeout "@ + text::dec_nat(timeout_secs) + "s "@ + exe + " store"@
}

/// The shell command that stores one capture; no capture outlives the timeout.
pub fn watch_shell_command(exe: &str, timeout_secs: u64) -> (r: String)
    ensures
        r@ == watch_command(exe@, timeout_secs as nat),
{
    let mut r = "exec timeout ".to_owned();
    text::push_u64(&mut r, timeout_secs);
    r.append("s ");
    r.append(exe);
    r.append(" store");
    r
}

/// The arguments of `wl-paste` for one watched selection.
pub open spec fn watch_args(exe: Seq<char>, timeout_secs: nat, primary: bool) -> Seq<Seq<char>> {
    if primary {
        seq!["--watch"@, "--primary"@, "sh"@, "-c"@, watch_command(exe, timeout_secs)]
    } else {
        seq!["--watch"@, "sh"@, "-c"@, watch_command(exe, timeout_secs)]
    }
}

/// The arguments of `wl-paste` for the clipboard or the primary selection.
pub fn wl_paste_watch_args(exe: &str, timeout_secs: u64, primary: bool) -> (v: Vec<String>)
    ensures
        text::texts(v@) == watch_args(exe@, timeout_secs as nat, primary),
{
    let mut v: Vec<String> = Vec::new();
    v.push("--watch".to_owned());
    if primary {
        v.push("--primary".to_owned());
    }
    v.push("sh".to_owned());
    v.push("-c".to_owned());
    v.push(watch_shell_command(exe, timeout_secs));
    v
}

/// Both selections are watched in the same way but for the flag that tells them
/// apart.
pub proof fn law_watchers_differ_in_the_flag_only(exe: Seq<char>, timeout_secs: nat)
    ensures
        ({
            let plain = watch_args(exe, timeout_secs, false);
            let primary = watch_args(exe, timeout_secs, true);
            &&& primary[1] == "--primary"@
            &&& primary.remove(1) == plain
        }),
{
    assert(watch_args(exe, timeout_secs, true).remove(1) == watch_args(exe, timeout_secs, false));
}

/// How many bytes are read of a payload of which at most `max` are stored: one
/// more, so that a larger one is recognised.
pub fn read_limit(max: usize) -> (n: u64)
    requires
        max < u64::MAX,
    ensures
        n == max + 1,
{
    max as u64 + 1
}

/// The message about a text that is too large.
pub open spec fn text_too_large(max: nat) -> Seq<char> {
    "条目超过 max_clip_bytes="@ + text::dec_nat(max) + " 字节"@
}

/// The message about an image that is too large.
pub open spec fn image_too_large(max: nat) -> Seq<char> {
    "图片超过 max_image_bytes="@ + text::dec_nat(max) + " 字节"@
}

fn text_message(max: usize) -> (r: String)
    ensures
        r@ == text_too_large(max as nat),
{
    let mut r = "条目超过 max_clip_bytes=".to_owned();
    text::push_u64(&mut r, max as u64);
    r.append(" 字节");
    r
}

fn image_message(max: usize) -> (r: String)
    ensures
        r@ == image_too_large(max as nat),
{
    let mut r = "图片超过 max_image_bytes=".to_owned();
    text::push_u64(&mut r, max as u64);
    r.append(" 字节");
    r
}

/// `String::from_utf8` with the error dropped: the text that the bytes encode,
/// where they are UTF-8.
#[verifier::external_body]
fn decode_utf8(bytes: Vec<u8>) -> (r: Option<String>)
    ensures
        r is Some <==> vstd::utf8::valid_utf8(bytes@),
        r matches Some(s) ==> text::utf8(s@) == bytes@,
{
    String::from_utf8(bytes).ok()
}

/// The text that some bytes encode.
pub open spec fn decoded(bytes: Seq<u8>) -> Seq<char> {
    vstd::utf8::decode_utf8(bytes)
}

fn text_of(bytes: Vec<u8>) -> (r: Option<String>)
    ensures
        r is Some <==> vstd::utf8::valid_utf8(bytes@),
        r matches Some(s) ==> s@ == decoded(bytes@),
{
    let r = decode_utf8(bytes);
    proof {
        if r is Some {
            vstd::utf8::encode_utf8_decode_utf8(r->0@);
        }
    }
    r
}

/// What is done with the payload that a capture gets through standard input.
#[derive(Debug)]
pub enum StdinAction {
    /// Ask whether the clipboard offers an image, and go by the answer.
    ProbeImage,
    /// Report that the payload is too large.
    Oversize { message: String },
    /// Store the text.
    Ingest { text: String },
    /// Look at the clipboard itself; `binary` tells that the payload was no
    /// text.
    ReadClipboard { binary: bool },
}

/// Decides on a payload, of which at most one byte more than the limit was
/// read. One over the limit of texts may be an image, whose limit is another.
pub fn store_from_stdin(payload: Vec<u8>, cfg: &Config) -> (a: StdinAction)
    ensures
        match a {
            StdinAction::ProbeImage => payload@.len() > cfg.max_clip_bytes
                && cfg.enable_image_preview,
            StdinAction::Oversize { message } => payload@.len() > cfg.max_clip_bytes
                && !cfg.enable_image_preview && message@ == text_too_large(
                cfg.max_clip_bytes as nat,
            ),
            StdinAction::Ingest { text } => 0 < payload@.len() <= cfg.max_clip_bytes
                && vstd::utf8::valid_utf8(payload@) && text@ == decoded(payload@),
            StdinAction::ReadClipboard { binary } => {
                &&& payload@.len() <= cfg.max_clip_bytes
                &&& binary == (payload@.len() > 0)
                &&& payload@.len() > 0 ==> !vstd::utf8::valid_utf8(payload@)
            },
        },
{
    if payload.len() > cfg.max_clip_bytes {
        if cfg.enable_image_preview {
            return StdinAction::ProbeImage;
        }
        return StdinAction::Oversize { message: text_message(cfg.max_clip_bytes) };
    }
    if payload.len() == 0 {
        return StdinAction::ReadClipboard { binary: false };
    }
    match text_of(payload) {
        Some(text) => StdinAction::Ingest { text },
        None => StdinAction::ReadClipboard { binary: true },
    }
}

/// What follows when it is known whether the clipboard offers an image.
pub fn after_image_probe(offers_image: bool, cfg: &Config) -> (message: Option<String>)
    ensures
        match message {
            Some(m) => !offers_image && m@ == text_too_large(cfg.max_clip_bytes as nat),
            None => offers_image,
        },
{
    if offers_image {
        None
    } else {
        Some(text_message(cfg.max_clip_bytes))
    }
}

/// What came of reading the clipboard as text.
#[derive(Debug)]
pub enum ClipboardRead {
    /// The bytes, at most one more than the limit.
    Bytes(Vec<u8>),
    /// Reading broke off.
    Broken,
    /// The clipboard holds no text.
    NoText,
    /// The clipboard cannot be reached.
    Failed,
}

/// What is done with what the clipboard held.
#[derive(Debug)]
pub enum CaptureAction {
    /// Store the text, which is trimmed.
    Ingest { text: String },
    /// Report that the text is too large.
    Oversize { message: String },
    /// Try the image types.
    CaptureImage,
    /// There is nothing to store.
    Nothing,
    /// Report that the payload is no text.
    NotUtf8,
    /// Report that the clipboard cannot be reached.
    Unreachable,
}

/// Decides on what the clipboard held when it was asked for once.
pub fn try_system_capture(read: ClipboardRead, cfg: &Config) -> (a: CaptureAction)
    ensures
        match read {
            ClipboardRead::Bytes(v) => if v@.len() > cfg.max_clip_bytes {
                a matches CaptureAction::Oversize { message } && message@ == text_too_large(
                    cfg.max_clip_bytes as nat,
                )
            } else if !vstd::utf8::valid_utf8(v@) {
                a is NotUtf8
            } else {
                if text::trimmed(decoded(v@)).len() == 0 {
                    a is Nothing
                } else {
                    a matches CaptureAction::Ingest { text } && text@ == crate::text::trimmed(
                        decoded(v@),
                    )
                }
            },
            ClipboardRead::Broken => a is Nothing,
            ClipboardRead::NoText => a is CaptureImage,
            ClipboardRead::Failed => a is Unreachable,
        },
{
    match read {
        ClipboardRead::Bytes(v) => {
            if v.len() > cfg.max_clip_bytes {
                return CaptureAction::Oversize { message: text_message(cfg.max_clip_bytes) };
            }
            match text_of(v) {
                None => CaptureAction::NotUtf8,
                Some(t) => {
                    let trimmed = text::trim(t.as_str());
                    if trimmed.as_str().is_empty() {
                        CaptureAction::Nothing
                    } else {
                        CaptureAction::Ingest { text: trimmed }
                    }
                },
            }
        },
        ClipboardRead::Broken => CaptureAction::Nothing,
        ClipboardRead::NoText => CaptureAction::CaptureImage,
        ClipboardRead::Failed => CaptureAction::Unreachable,
    }
}

/// What is done after one image type was asked for.
#[derive(Debug)]
pub enum ImageAction {
    /// Ask for the next type.
    TryNext,
    /// Report that the image is too large, and stop.
    Oversize { message: String },
    /// Store the image, and stop.
    Store,
}

/// Decides on what the clipboard gave for one image type: `None` where it
/// offers none or reading broke off.
pub fn image_step(bytes: &Option<Vec<u8>>, cfg: &Config) -> (a: ImageAction)
    ensures
        match bytes {
            Some(b) => if b@.len() == 0 {
                a is TryNext
            } else if b@.len() > cfg.max_image_bytes {
                a matches ImageAction::Oversize { message } && message@ == image_too_large(
                    cfg.max_image_bytes as nat,
                )
            } else {
                a is Store
            },
            None => a is TryNext,
        },
{
    match bytes {
        Some(b) => {
            if b.len() == 0 {
                ImageAction::TryNext
            } else if b.len() > cfg.max_image_bytes {
                ImageAction::Oversize { message: image_message(cfg.max_image_bytes) }
            } else {
                ImageAction::Store
            }
        },
        None => ImageAction::TryNext,
    }
}

/// The image types that are tried: none where images are not captured.
pub fn capture_image_if_enabled(cfg: &Config) -> (v: Vec<String>)
    ensures
        text::texts(v@) == if cfg.enable_image_preview {
            seq!["image/png"@, "image/jpeg"@, "image/webp"@]
        } else {
            Seq::empty()
        },
{
    if cfg.enable_image_preview {
        image_mimes()
    } else {
        let v: Vec<String> = Vec::new();
        assert(text::texts(v@) == Seq::<Seq<char>>::empty());
        v
    }
}

/// What one look at the clipboard leads to when it is polled.
#[derive(Debug)]
pub enum PollAction {
    /// Store the text, which is trimmed.
    Insert { text: String },
    /// Report that the text is too large.
    Oversize { message: String },
    /// The content is the one seen last.
    Unchanged,
    /// Try the image types; `failed` tells that the clipboard could not be
    /// reached.
    CaptureImage { failed: bool },
}

/// What stands for a text that is too large, so that it is reported once.
pub open spec fn oversize_key(max: nat, len: nat) -> Seq<char> {
    "oversize:"@ + digest::text_hash(text::dec_nat(max) + ":"@ + text::dec_nat(len))
}

fn oversize_mark(max: usize, len: usize) -> (r: String)
    ensures
        r@ == oversize_key(max as nat, len as nat),
{
    let mut t = text::u64_text(max as u64);
    t.append(":");
    text::push_u64(&mut t, len as u64);
    let mut r = "oversize:".to_owned();
    r.append(digest::hash_text(t.as_str()).as_str());
    r
}

/// What stands for what the clipboard held, if it is a text worth a capture.
pub open spec fn poll_key(read: ClipboardRead, max: nat) -> Option<Seq<char>> {
    match read {
        ClipboardRead::Bytes(v) => if v@.len() > max {
            Some(oversize_key(max, v@.len()))
        } else if !vstd::utf8::valid_utf8(v@) || text::trimmed(decoded(v@)).len() == 0 {
            None
        } else {
            Some(digest::text_hash(text::trimmed(decoded(v@))))
        },
        _ => None,
    }
}

/// What one look at the clipboard leads to, given what was seen last.
pub open spec fn is_poll_action(
    read: ClipboardRead,
    max: nat,
    last: Option<Seq<char>>,
    a: PollAction,
) -> bool {
    if poll_key(read, max) is None {
        a == (PollAction::CaptureImage { failed: read is Failed })
    } else if last == poll_key(read, max) {
        a is Unchanged
    } else if read->Bytes_0@.len() > max {
        a matches PollAction::Oversize { message } && message@ == text_too_large(max)
    } else {
        a matches PollAction::Insert { text } && text@ == crate::text::trimmed(
            decoded(read->Bytes_0@),
        )
    }
}

/// What was seen last, after a look at the clipboard.
pub open spec fn last_after(read: ClipboardRead, max: nat, last: Option<Seq<char>>) -> Option<
    Seq<char>,
> {
    if poll_key(read, max) is Some {
        poll_key(read, max)
    } else {
        last
    }
}

/// One look at the clipboard. `last` holds what stands for the content that was
/// seen last; the same content is handled once.
pub fn poll_step(read: ClipboardRead, max: usize, last: &mut Option<String>) -> (a: PollAction)
    ensures
        is_poll_action(read, max as nat, crate::store::opt_text(*old(last)), a),
        crate::store::opt_text(*final(last)) == last_after(
            read,
            max as nat,
            crate::store::opt_text(*old(last)),
        ),
{
    let bytes = match read {
        ClipboardRead::Bytes(v) => v,
        ClipboardRead::Failed => {
            return PollAction::CaptureImage { failed: true };
        },
        _ => {
            return PollAction::CaptureImage { failed: false };
        },
    };
    if bytes.len() > max {
        let key = oversize_mark(max, bytes.len());
        let seen = match last {
            Some(l) => *l == key,
            None => false,
        };
        if seen {
            return PollAction::Unchanged;
        }
        *last = Some(key);
        return PollAction::Oversize { message: text_message(max) };
    }
    let t = match text_of(bytes) {
        Some(t) => t,
        None => {
            return PollAction::CaptureImage { failed: false };
        },
    };
    let trimmed = text::trim(t.as_str());
    if trimmed.as_str().is_empty() {
        return PollAction::CaptureImage { failed: false };
    }
    let key = digest::hash_text(trimmed.as_str());
    let seen = match last {
        Some(l) => *l == key,
        None => false,
    };
    if seen {
        return PollAction::Unchanged;
    }
    *last = Some(key);
    PollAction::Insert { text: trimmed }
}

/// Content that stays in the clipboard is handled once: at the next look it is
/// unchanged.
pub proof fn law_same_content_is_handled_once(
    read: ClipboardRead,
    max: nat,
    last: Option<Seq<char>>,
    again: PollAction,
)
    requires
        poll_key(read, max) is Some,
        is_poll_action(read, max, last_after(read, max, last), again),
    ensures
        again is Unchanged,
{
}

/// How the background process captures.
#[derive(Debug, Clone, Copy, PartialEq, Eq, Structural)]
pub enum Mode {
    /// `wl-paste` watches the clipboard, and the primary selection where
    /// `primary` is set.
    Watch { timeout_secs: u64, primary: bool },
    /// The clipboard is polled.
    Poll,
    /// There is no way to capture.
    Impossible,
}

/// How the background process captures: by `wl-paste` where it is installed,
/// else by polling where the clipboard can be reached.
pub fn run(cfg: &Config, has_wl_paste: bool, native_available: bool) -> (m: Mode)
    ensures
        m == if has_wl_paste {
            Mode::Watch { timeout_secs: cfg.capture_timeout_secs, primary: cfg.capture_primary }
        } else if native_available {
            Mode::Poll
        } else {
            Mode::Impossible
        },
{
    if has_wl_paste {
        Mode::Watch { timeout_secs: cfg.capture_timeout_secs, primary: cfg.capture_primary }
    } else if native_available {
        Mode::Poll
    } else {
        Mode::Impossible
    }
}

/// Where the systemd user unit is installed; nowhere without a configuration
/// directory.
pub fn install_service(d: &Dirs) -> (r: Option<String>)
    ensures
        match d.config {
            Some(c) => r is Some && r->0@ == config::joined(
                config::joined(c@, "systemd/user"@),
                "niri-clip.service"@,
            ),
            None => r is None,
        },
{
    match &d.config {
        Some(c) => Some(
            config::join(config::join(c.as_str(), "systemd/user").as_str(), "niri-clip.service"),
        ),
        None => None,
    }
}

/// Bytes that encode a text are read as that text.
pub proof fn law_decoding_undoes_encoding(t: Seq<char>)
    ensures
        decoded(text::utf8(t)) == t,
{
    vstd::utf8::encode_utf8_decode_utf8(t);
}

/// A text within the limit is taken for unchanged only where what was seen last stands
/// for that very text, the whole of it without white space at its ends. Any other text
/// is stored, and stands for what was seen last from then on.
pub proof fn law_changed_text_is_stored(
    v: Vec<u8>,
    max: nat,
    last: Option<Seq<char>>,
    a: PollAction,
)
    requires
        is_poll_action(ClipboardRead::Bytes(v), max, last, a),
        v@.len() <= max,
        vstd::utf8::valid_utf8(v@),
        text::trimmed(vstd::utf8::decode_utf8(v@)).len() > 0,
    ensures
        ({
            let t = crate::text::trimmed(vstd::utf8::decode_utf8(v@));
            let h = digest::blake3_hex(vstd::utf8::encode_utf8(t));
            &&& a is Unchanged <==> last == Some(h)
            &&& last != Some(h) ==> (a matches PollAction::Insert { text } && text@ == t)
            &&& last_after(ClipboardRead::Bytes(v), max, last) == Some(h)
        }),
{
}

/// Two texts with different fingerprints, seen one after the other, are both stored,
/// unless the first was seen already before.
pub proof fn law_two_texts_are_both_stored(
    v: Vec<u8>,
    w: Vec<u8>,
    max: nat,
    last: Option<Seq<char>>,
    first: PollAction,
    second: PollAction,
)
    requires
        v@.len() <= max && w@.len() <= max,
        vstd::utf8::valid_utf8(v@) && vstd::utf8::valid_utf8(w@),
        text::trimmed(decoded(v@)).len() > 0 && text::trimmed(decoded(w@)).len() > 0,
        digest::text_hash(text::trimmed(decoded(v@))) != digest::text_hash(
            text::trimmed(decoded(w@)),
        ),
        last != Some(digest::text_hash(text::trimmed(decoded(v@)))),
        is_poll_action(ClipboardRead::Bytes(v), max, last, first),
        is_poll_action(
            ClipboardRead::Bytes(w),
            max,
            last_after(ClipboardRead::Bytes(v), max, last),
            second,
        ),
    ensures
        first matches PollAction::Insert { text } && text@ == crate::text::trimmed(decoded(v@)),
        second matches PollAction::Insert { text } && text@ == crate::text::trimmed(decoded(w@)),
{
    law_changed_text_is_stored(v, max, last, first);
    law_changed_text_is_stored(
        w,
        max,
        last_after(ClipboardRead::Bytes(v), max, last),
        second,
    );
}

/// A look that finds no text leads to the images, and leaves what was seen last as it
/// is; only a clipboard that could not be reached counts as a failure.
pub proof fn law_no_text_leads_to_images(
    read: ClipboardRead,
    max: nat,
    last: Option<Seq<char>>,
    a: PollAction,
)
    requires
        is_poll_action(read, max, last, a),
        match read {
            ClipboardRead::Bytes(v) => v@.len() <= max && (!vstd::utf8::valid_utf8(v@)
                || text::trimmed(decoded(v@)).len() == 0),
            _ => true,
        },
    ensures
        a matches PollAction::CaptureImage { failed } && (failed <==> read is Failed),
        last_after(read, max, last) == last,
{
}

/// A text over the limit is never stored: it is reported, or was reported before.
pub proof fn law_large_text_is_reported(
    v: Vec<u8>,
    max: nat,
    last: Option<Seq<char>>,
    a: PollAction,
)
    requires
        is_poll_action(ClipboardRead::Bytes(v), max, last, a),
        v@.len() > max,
    ensures
        a is Oversize || a is Unchanged,
        last is None ==> a is Oversize,
        ({
            let mark = "oversize:"@ + digest::text_hash(
                text::dec_nat(max) + ":"@ + text::dec_nat(v@.len()),
            );
            &&& a is Unchanged <==> last == Some(mark)
            &&& last_after(ClipboardRead::Bytes(v), max, last) == Some(mark)
        }),
        a matches PollAction::Oversize { message } ==> message@ == "条目超过 max_clip_bytes="@
            + text::dec_nat(max) + " 字节"@,
{
}

/// The watcher runs the given program, with its time limit in front.
pub proof fn law_watcher_runs_the_program(exe: Seq<char>, timeout_secs: nat, primary: bool)
    ensures
        ({
            let args = watch_args(exe, timeout_secs, primary);
            &&& args.len() > 0
            &&& args[0] == "--watch"@
            &&& args.last() == "exec timeout "@ + text::dec_nat(timeout_secs) + "s "@ + exe
                + " store"@
        }),
{
}

/// The messages about what is too large name the setting and its value.
pub proof fn law_messages_name_the_limit(max: nat)
    ensures
        text_too_large(max) == "条目超过 max_clip_bytes="@ + text::dec_nat(max) + " 字节"@,
        image_too_large(max) == "图片超过 max_image_bytes="@ + text::dec_nat(max) + " 字节"@,
{
}

} // verus!
