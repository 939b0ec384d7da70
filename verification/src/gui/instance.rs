//! A second start of the window brings the first one to the front.

use crate::text;
use vstd::prelude::*;

verus! {

/// The application id of the window.
pub const APP_ID: &'static str = "niri-clip-gui";

/// A window that the compositor lists.
#[derive(Debug, Clone)]
pub struct NiriWindow {
    pub id: u64,
    pub app_id: Option<String>,
}

/// Whether a listed window is the one of this program.
pub open spec fn is_ours(w: NiriWindow) -> bool {
    w.app_id is Some && w.app_id->0@ == APP_ID@
}

/// The first of the listed windows that is the one of this program.
pub fn existing_window(windows: &Vec<NiriWindow>) -> (r: Option<u64>)
    ensures
        match r {
            Some(id) => exists|i: int|
                0 <= i < windows.len() && is_ours(#[trigger] windows@[i]) && windows@[i].id == id
                    && forall|j: int| 0 <= j < i ==> !is_ours(#[trigger] windows@[j]),
            None => forall|i: int| 0 <= i < windows.len() ==> !is_ours(#[trigger] windows@[i]),
        },
{
    let mut i: usize = 0;
    while i < windows.len()
        invariant
            i <= windows.len(),
            forall|j: int| 0 <= j < i ==> !is_ours(#[trigger] windows@[j]),
        decreases windows.len() - i,
    {
        let ours = match &windows[i].app_id {
            Some(a) => text::same(a.as_str(), APP_ID),
            None => false,
        };
        if ours {
            assert(is_ours(windows@[i as int]));
            return Some(windows[i].id);
        }
        i += 1;
    }
    None
}

/// The arguments with which `niri` brings a window to the front.
pub fn focus_args(id: u64) -> (v: Vec<String>)
    ensures
        text::texts(v@) == seq![
            "msg"@,
            "action"@,
            "focus-window"@,
            "--id"@,
            text::dec_nat(id as nat),
        ],
{
    let mut v: Vec<String> = Vec::new();
    v.push("msg".to_owned());
    v.push("action".to_owned());
    v.push("focus-window".to_owned());
    v.push("--id".to_owned());
    v.push(text::u64_text(id));
    v
}

/// A window is this program's where it bears its name.
pub proof fn law_windows_are_told_by_name(w: NiriWindow)
    ensures
        is_ours(w) <==> w.app_id is Some && w.app_id->0@ == "niri-clip-gui"@,
{
}

} // verus!
