//! Desktop notices.

use crate::text;
use vstd::prelude::*;

verus! {

/// The command that shows a notice: `notify-send`, given up after five seconds.
/// The body is an argument of its own, so no shell reads it.
pub fn send(body: &str) -> (v: Vec<String>)
    ensures
        text::texts(v@) == seq![
            "timeout"@,
            "5s"@,
            "notify-send"@,
            "--app-name=niri-clip"@,
            "niri-clip"@,
            body@,
        ],
{
    let mut v: Vec<String> = Vec::new();
    v.push("timeout".to_owned());
    v.push("5s".to_owned());
    v.push("notify-send".to_owned());
    v.push("--app-name=niri-clip".to_owned());
    v.push("niri-clip".to_owned());
    v.push(body.to_owned());
    assert(text::texts(v@) =~= seq![
        "timeout"@,
        "5s"@,
        "notify-send"@,
        "--app-name=niri-clip"@,
        "niri-clip"@,
        body@,
    ]);
    v
}

} // verus!
