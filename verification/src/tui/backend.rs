//! Which program shows the menu.

use crate::config;
use crate::config::Config;
use crate::text;
use vstd::prelude::*;

verus! {

/// The oldest `fzf` that knows `--id-nth`. An older one refuses its arguments.
pub const FZF_MIN: (u32, u32) = (0, 71);

/// The name of the program with the native window.
pub const GUI_NAME: &'static str = "niri-clip-gui";

/// Where `cargo` installs it, below the home directory.
pub const GUI_IN_HOME: &'static str = ".cargo/bin/niri-clip-gui";

/// The notice where there is neither a terminal nor `fuzzel`.
pub const NOTICE_NO_TTY: &'static str =
    "fzf 需要 TTY：请安装 foot/ghostty/kitty 等终端，或安装 fuzzel";

/// The notice where `fzf` is too old and there is no `fuzzel`.
pub const NOTICE_OLD_FZF: &'static str = "niri-clip 需要 fzf >= 0.71（或安装 fuzzel）";

/// The programs that can show the menu.
#[derive(Debug, Clone, Copy, PartialEq, Eq, Structural)]
pub enum Backend {
    /// The native window, which needs no terminal.
    Native,
    Fzf,
    Fuzzel,
}

/// A terminal emulator and what goes between its name and a command.
#[derive(Debug, Clone)]
pub struct Terminal {
    pub name: String,
    pub prefix: Vec<String>,
}

/// What is found on the machine.
#[derive(Debug, Clone)]
pub struct Machine {
    /// The program with the native window.
    pub gui: Option<String>,
    pub has_fzf: bool,
    /// Whether `fzf` is there and recent enough.
    pub fzf_ok: bool,
    pub has_fuzzel: bool,
    /// Whether the process has a controlling terminal.
    pub has_tty: bool,
    /// A terminal emulator that can be started.
    pub terminal: Option<Terminal>,
}

/// Why the menu cannot be shown.
#[derive(Debug, Clone, Copy, PartialEq, Eq, Structural)]
pub enum Refusal {
    /// No controlling terminal, no terminal emulator, no `fuzzel`.
    NoTerminal,
    /// `fzf` is missing or too old, and there is no `fuzzel`.
    FzfTooOld,
    /// `fzf` needs a terminal, and there is no terminal emulator.
    FzfNeedsTty,
}

/// How the menu is shown.
#[derive(Debug, Clone)]
pub enum Start {
    /// The native window is started.
    Gui { path: String },
    /// The program starts itself anew in a terminal emulator.
    InTerminal { terminal: Terminal },
    Fzf,
    Fuzzel,
    /// Nothing is shown. The notice is sent where notices are wanted.
    Refused { why: Refusal, notice: Option<String> },
}

/// The value of an unsigned literal that fits in 32 bits.
pub open spec fn u32_literal(s: Seq<char>) -> Option<nat> {
    match text::nat_literal(s) {
        Some(n) => if n <= u32::MAX {
            Some(n)
        } else {
            None
        },
        None => None,
    }
}

/// The first two numbers of a version such as `0.74.4 (c0252b6)`.
pub open spec fn version_of(s: Seq<char>) -> Option<(nat, nat)> {
    let w = text::words_of(s);
    if w.len() == 0 {
        None
    } else {
        let p = text::split_on(w[0], '.');
        if p.len() < 2 {
            None
        } else {
            match (u32_literal(p[0]), u32_literal(p[1])) {
                (Some(major), Some(minor)) => Some((major, minor)),
                _ => None,
            }
        }
    }
}

/// Whether a version is at least the oldest that will do.
pub open spec fn is_enough(v: Option<(nat, nat)>) -> bool {
    match v {
        Some((major, minor)) => major > FZF_MIN.0 || (major == FZF_MIN.0 && minor >= FZF_MIN.1),
        None => false,
    }
}

fn parse_u32(s: &str) -> (r: Option<u32>)
    ensures
        match r {
            Some(n) => u32_literal(s@) == Some(n as nat),
            None => u32_literal(s@) is None,
        },
{
    match text::parse_u128(s) {
        Some(n) => if n <= u32::MAX as u128 {
            Some(n as u32)
        } else {
            None
        },
        None => None,
    }
}

/// The first two numbers of what `fzf --version` prints.
pub fn parse_version(s: &str) -> (r: Option<(u32, u32)>)
    ensures
        match r {
            Some(v) => version_of(s@) == Some((v.0 as nat, v.1 as nat)),
            None => version_of(s@) is None,
        },
{
    let w = text::words(s);
    let ghost all = text::texts(w@);
    if w.len() == 0 {
        return None;
    }
    assert(all[0] == w@[0]@);
    let p = text::split(w[0].as_str(), '.');
    let ghost parts = text::texts(p@);
    if p.len() < 2 {
        return None;
    }
    assert(parts[0] == p@[0]@ && parts[1] == p@[1]@);
    match (parse_u32(p[0].as_str()), parse_u32(p[1].as_str())) {
        (Some(major), Some(minor)) => Some((major, minor)),
        _ => None,
    }
}

/// Whether what `fzf --version` prints is a version that will do.
pub fn fzf_version_ok(printed: &str) -> (b: bool)
    ensures
        b == is_enough(version_of(printed@)),
{
    match parse_version(printed) {
        Some((major, minor)) => major > FZF_MIN.0 || (major == FZF_MIN.0 && minor >= FZF_MIN.1),
        None => false,
    }
}

/// Whether the version that was noted down is still that of the installed
/// `fzf`: the note is not older than the program. Times that are not known make
/// it out of date.
pub fn version_cache_is_fresh(program_time: Option<i128>, note_time: Option<i128>) -> (b: bool)
    ensures
        b == (program_time is Some && note_time is Some && program_time->0 <= note_time->0),
{
    match (program_time, note_time) {
        (Some(p), Some(n)) => p <= n,
        _ => false,
    }
}

/// The native program beside the running one.
pub fn gui_sibling(exe_dir: &str) -> (p: String)
    ensures
        p@ == config::joined(exe_dir@, GUI_NAME@),
{
    config::join(exe_dir, GUI_NAME)
}

/// The native program where `cargo` installs it.
pub fn gui_in_home(home: &str) -> (p: String)
    ensures
        p@ == config::joined(home@, GUI_IN_HOME@),
{
    config::join(home, GUI_IN_HOME)
}

/// The native program: the one on the search path, else the one beside the
/// running program, else the one in the home directory. The last two are given
/// where they exist.
pub fn gui_binary(
    on_path: Option<String>,
    sibling: Option<String>,
    in_home: Option<String>,
) -> (r: Option<String>)
    ensures
        r == if on_path is Some {
            on_path
        } else if sibling is Some {
            sibling
        } else {
            in_home
        },
{
    if on_path.is_some() {
        on_path
    } else if sibling.is_some() {
        sibling
    } else {
        in_home
    }
}

/// The program that the settings ask for.
pub open spec fn chosen(setting: Seq<char>, gui_found: bool, has_fzf: bool) -> Backend {
    if setting == "fuzzel"@ {
        Backend::Fuzzel
    } else if setting == "fzf"@ {
        Backend::Fzf
    } else if setting == "native"@ || gui_found {
        Backend::Native
    } else if has_fzf {
        Backend::Fzf
    } else {
        Backend::Fuzzel
    }
}

/// The program that the settings ask for. Anything but the three names means
/// the first of them that is there.
pub fn backend(setting: &str, gui_found: bool, has_fzf: bool) -> (b: Backend)
    ensures
        b == chosen(setting@, gui_found, has_fzf),
{
    if text::same(setting, "fuzzel") {
        Backend::Fuzzel
    } else if text::same(setting, "fzf") {
        Backend::Fzf
    } else if text::same(setting, "native") || gui_found {
        Backend::Native
    } else if has_fzf {
        Backend::Fzf
    } else {
        Backend::Fuzzel
    }
}

/// A terminal emulator's name and its prefix.
pub type TerminalView = (Seq<char>, Seq<Seq<char>>);

/// The name and the prefix of a terminal emulator.
pub open spec fn terminal_view(t: Terminal) -> TerminalView {
    (t.name@, text::texts(t.prefix@))
}

/// The terminal emulators that can show `fzf`, the one that starts fastest first.
pub open spec fn known_terminals() -> Seq<TerminalView> {
    seq![
        ("foot"@, Seq::empty()),
        ("ghostty"@, seq!["-e"@]),
        ("kitty"@, Seq::empty()),
        ("alacritty"@, seq!["-e"@]),
        ("wezterm"@, seq!["start"@, "--"@]),
    ]
}

fn terminal(name: &str, first: Option<&str>, second: Option<&str>) -> (t: Terminal)
    ensures
        terminal_view(t) == (
            name@,
            match (first, second) {
                (Some(a), Some(b)) => seq![a@, b@],
                (Some(a), None) => seq![a@],
                (None, Some(b)) => seq![b@],
                (None, None) => Seq::empty(),
            },
        ),
{
    let mut prefix: Vec<String> = Vec::new();
    if let Some(a) = first {
        prefix.push(a.to_owned());
    }
    if let Some(b) = second {
        prefix.push(b.to_owned());
    }
    let t = Terminal { name: name.to_owned(), prefix };
    assert(text::texts(t.prefix@) =~= match (first, second) {
        (Some(a), Some(b)) => seq![a@, b@],
        (Some(a), None) => seq![a@],
        (None, Some(b)) => seq![b@],
        (None, None) => Seq::empty(),
    });
    t
}

/// The terminal emulators that can show `fzf`, the one that starts fastest first.
pub fn terminals() -> (v: Vec<Terminal>)
    ensures
        v@.map_values(|t: Terminal| terminal_view(t)) == known_terminals(),
{
    let mut v: Vec<Terminal> = Vec::new();
    v.push(terminal("foot", None, None));
    v.push(terminal("ghostty", Some("-e"), None));
    v.push(terminal("kitty", None, None));
    v.push(terminal("alacritty", Some("-e"), None));
    v.push(terminal("wezterm", Some("start"), Some("--")));
    v
}

/// The first terminal emulator that is installed.
pub open spec fn first_terminal(installed: Seq<Seq<char>>, from: int) -> Option<TerminalView>
    decreases known_terminals().len() - from,
{
    let all = known_terminals();
    if from < 0 || from >= all.len() {
        None
    } else if installed.contains(all[from].0) {
        Some(all[from])
    } else {
        first_terminal(installed, from + 1)
    }
}

fn is_among(names: &Vec<String>, name: &str) -> (b: bool)
    ensures
        b == text::texts(names@).contains(name@),
{
    let ghost all = text::texts(names@);
    let mut i: usize = 0;
    while i < names.len()
        invariant
            i <= names.len(),
            all == text::texts(names@),
            forall|k: int| 0 <= k < i ==> #[trigger] all[k] != name@,
        decreases names.len() - i,
    {
        assert(all[i as int] == names@[i as int]@);
        if text::same(names[i].as_str(), name) {
            return true;
        }
        i += 1;
    }
    false
}

/// The terminal emulator to start, given the names of those that are installed.
pub fn terminal_wrap(installed: &Vec<String>) -> (r: Option<Terminal>)
    ensures
        match r {
            Some(t) => first_terminal(text::texts(installed@), 0) == Some(terminal_view(t)),
            None => first_terminal(text::texts(installed@), 0) is None,
        },
{
    let all = terminals();
    let ghost names = text::texts(installed@);
    let ghost views = all@.map_values(|t: Terminal| terminal_view(t));
    let mut i: usize = 0;
    while i < all.len()
        invariant
            i <= all.len(),
            names == text::texts(installed@),
            views == all@.map_values(|t: Terminal| terminal_view(t)),
            views == known_terminals(),
            first_terminal(names, 0) == first_terminal(names, i as int),
        decreases all.len() - i,
    {
        assert(views[i as int] == terminal_view(all@[i as int]));
        if is_among(installed, all[i].name.as_str()) {
            let prefix = text::copy_all(&all[i].prefix);
            return Some(Terminal { name: all[i].name.as_str().to_owned(), prefix });
        }
        i += 1;
    }
    None
}

/// What the shell in the terminal emulator runs. Its output goes to a file, so
/// that nothing of it flashes up when the menu closes.
pub open spec fn shell_line(exe: Seq<char>, log: Seq<char>) -> Seq<char> {
    "exec '"@ + exe + "' tui >> '"@ + log + "' 2>&1"@
}

/// The arguments with which the terminal emulator runs the program anew.
pub fn respawn_args(terminal: &Terminal, exe: &str, log: &str) -> (v: Vec<String>)
    ensures
        text::texts(v@) == text::texts(terminal.prefix@) + seq![
            "sh"@,
            "-c"@,
            shell_line(exe@, log@),
        ],
{
    let mut v = text::copy_all(&terminal.prefix);
    let ghost before = v@;
    let mut line = "exec '".to_owned();
    line.append(exe);
    line.append("' tui >> '");
    line.append(log);
    line.append("' 2>&1");
    let sh = "sh".to_owned();
    let flag = "-c".to_owned();
    proof {
        text::lemma_texts_push(before, sh);
        text::lemma_texts_push(before.push(sh), flag);
        text::lemma_texts_push(before.push(sh).push(flag), line);
    }
    v.push(sh);
    v.push(flag);
    v.push(line);
    assert(text::texts(v@) =~= text::texts(terminal.prefix@) + seq![
        "sh"@,
        "-c"@,
        shell_line(exe@, log@),
    ]);
    v
}

/// The notice that goes with a refusal.
pub open spec fn notice_of(why: Refusal) -> Option<Seq<char>> {
    match why {
        Refusal::NoTerminal => Some(NOTICE_NO_TTY@),
        Refusal::FzfTooOld => Some(NOTICE_OLD_FZF@),
        Refusal::FzfNeedsTty => None,
    }
}

/// How the menu is shown, without the texts.
pub enum StartView {
    Gui { path: Seq<char> },
    InTerminal { terminal: TerminalView },
    Fzf,
    Fuzzel,
    Refused { why: Refusal, notice: Option<Seq<char>> },
}

impl View for Start {
    type V = StartView;

    open spec fn view(&self) -> StartView {
        match self {
            Start::Gui { path } => StartView::Gui { path: path@ },
            Start::InTerminal { terminal } => StartView::InTerminal {
                terminal: terminal_view(*terminal),
            },
            Start::Fzf => StartView::Fzf,
            Start::Fuzzel => StartView::Fuzzel,
            Start::Refused { why, notice } => StartView::Refused {
                why: *why,
                notice: crate::store::opt_text(*notice),
            },
        }
    }
}

/// A refusal, with its notice where notices are wanted.
pub open spec fn refused(why: Refusal, notify: bool) -> StartView {
    StartView::Refused {
        why,
        notice: if notify {
            notice_of(why)
        } else {
            None
        },
    }
}

/// How the menu is shown in a terminal: an `fzf` that is too old gives way to
/// `fuzzel`.
pub open spec fn in_tty(be: Backend, m: Machine, notify: bool) -> StartView {
    if be == Backend::Fzf && m.fzf_ok {
        StartView::Fzf
    } else if be == Backend::Fzf && !m.has_fuzzel {
        refused(Refusal::FzfTooOld, notify)
    } else {
        StartView::Fuzzel
    }
}

/// How the menu is shown where the native window was asked for and is missing.
pub open spec fn fallback(m: Machine, notify: bool) -> StartView {
    if !m.has_fzf {
        StartView::Fuzzel
    } else if m.has_tty {
        in_tty(Backend::Fzf, m, notify)
    } else {
        match m.terminal {
            Some(t) => StartView::InTerminal { terminal: terminal_view(t) },
            None => refused(Refusal::FzfNeedsTty, notify),
        }
    }
}

/// How the menu is shown.
pub open spec fn start(setting: Seq<char>, notify: bool, m: Machine) -> StartView {
    match chosen(setting, m.gui is Some, m.has_fzf) {
        Backend::Native => match m.gui {
            Some(path) => StartView::Gui { path: path@ },
            None => fallback(m, notify),
        },
        be => if !m.has_tty {
            match m.terminal {
                Some(t) => StartView::InTerminal { terminal: terminal_view(t) },
                None => if m.has_fuzzel {
                    StartView::Fuzzel
                } else {
                    refused(Refusal::NoTerminal, notify)
                },
            }
        } else {
            in_tty(be, m, notify)
        },
    }
}

fn refuse(why: Refusal, notify: bool) -> (s: Start)
    ensures
        s@ == refused(why, notify),
{
    let notice = if notify {
        match why {
            Refusal::NoTerminal => Some(NOTICE_NO_TTY.to_owned()),
            Refusal::FzfTooOld => Some(NOTICE_OLD_FZF.to_owned()),
            Refusal::FzfNeedsTty => None,
        }
    } else {
        None
    };
    Start::Refused { why, notice }
}

fn run_in_tty(be: Backend, m: &Machine, notify: bool) -> (s: Start)
    ensures
        s@ == in_tty(be, *m, notify),
{
    if be == Backend::Fzf && m.fzf_ok {
        Start::Fzf
    } else if be == Backend::Fzf && !m.has_fuzzel {
        refuse(Refusal::FzfTooOld, notify)
    } else {
        Start::Fuzzel
    }
}

fn run_fallback(m: Machine, notify: bool) -> (s: Start)
    ensures
        s@ == fallback(m, notify),
{
    if !m.has_fzf {
        Start::Fuzzel
    } else if m.has_tty {
        run_in_tty(Backend::Fzf, &m, notify)
    } else {
        match m.terminal {
            Some(terminal) => Start::InTerminal { terminal },
            None => refuse(Refusal::FzfNeedsTty, notify),
        }
    }
}

/// How the menu is shown on this machine.
pub fn run(cfg: &Config, m: Machine) -> (s: Start)
    ensures
        s@ == start(cfg.tui_backend@, cfg.notify_enabled, m),
{
    let be = backend(cfg.tui_backend.as_str(), m.gui.is_some(), m.has_fzf);
    if be == Backend::Native {
        return if m.gui.is_none() {
            run_fallback(m, cfg.notify_enabled)
        } else {
            match m.gui {
                Some(path) => Start::Gui { path },
                None => Start::Fuzzel,
            }
        };
    }
    if !m.has_tty {
        return match m.terminal {
            Some(terminal) => Start::InTerminal { terminal },
            None => if m.has_fuzzel {
                Start::Fuzzel
            } else {
                refuse(Refusal::NoTerminal, cfg.notify_enabled)
            },
        };
    }
    run_in_tty(be, &m, cfg.notify_enabled)
}

/// On a machine with the native program, the setting `auto` opens it, whatever
/// else is there or missing.
pub proof fn law_auto_prefers_the_window(notify: bool, m: Machine)
    requires
        m.gui is Some,
    ensures
        start("auto"@, notify, m) == (StartView::Gui { path: m.gui->0@ }),
{
    reveal_strlit("auto");
    reveal_strlit("fzf");
    reveal_strlit("fuzzel");
    assert("auto"@[0] == 'a' && "fzf"@[0] == 'f' && "fuzzel"@[0] == 'f');
}

/// `fzf` is not started without a terminal of its own.
pub proof fn law_fzf_has_a_terminal(setting: Seq<char>, notify: bool, m: Machine)
    ensures
        start(setting, notify, m) is Fzf ==> m.has_tty,
{
}

/// An `fzf` below the oldest version that will do is not started.
pub proof fn law_old_fzf_is_not_started(setting: Seq<char>, notify: bool, m: Machine)
    requires
        !m.fzf_ok,
    ensures
        !(start(setting, notify, m) is Fzf),
{
}

/// The setting decides where it names a front end; else the window comes first, then
/// `fzf`, then `fuzzel`, as far as they are there.
pub proof fn law_setting_names_the_front_end(setting: Seq<char>, gui_found: bool, has_fzf: bool)
    ensures
        setting == "fuzzel"@ ==> chosen(setting, gui_found, has_fzf) == Backend::Fuzzel,
        setting == "fzf"@ ==> chosen(setting, gui_found, has_fzf) == Backend::Fzf,
        setting == "native"@ ==> chosen(setting, gui_found, has_fzf) == Backend::Native,
        setting != "fuzzel"@ && setting != "fzf"@ && setting != "native"@ ==> chosen(
            setting,
            gui_found,
            has_fzf,
        ) == if gui_found {
            Backend::Native
        } else if has_fzf {
            Backend::Fzf
        } else {
            Backend::Fuzzel
        },
{
    reveal_strlit("fuzzel");
    reveal_strlit("fzf");
    reveal_strlit("native");
    assert("fuzzel"@.len() == 6 && "fzf"@.len() == 3 && "native"@.len() == 6);
    assert("fuzzel"@[0] != "native"@[0]);
}

/// A front end that was asked for and can run is what is started; and what is started
/// is there.
pub proof fn law_what_is_started_is_there(setting: Seq<char>, notify: bool, m: Machine)
    ensures
        setting == "fzf"@ && m.has_tty && m.fzf_ok ==> start(setting, notify, m) is Fzf,
        setting == "fuzzel"@ && m.has_tty ==> start(setting, notify, m) is Fuzzel,
        setting == "native"@ && m.gui is Some ==> start(setting, notify, m) == (StartView::Gui {
            path: m.gui->0@,
        }),
        start(setting, notify, m) matches StartView::Gui { path } ==> m.gui is Some && path
            == m.gui->0@,
        start(setting, notify, m) matches StartView::InTerminal { terminal } ==> !m.has_tty
            && m.terminal is Some && terminal == terminal_view(m.terminal->0),
        start(setting, notify, m) matches StartView::Refused { why, notice } ==> (notice is Some
            ==> notify) && (m.has_fuzzel ==> why == Refusal::FzfNeedsTty) && (notify && why
            != Refusal::FzfNeedsTty ==> notice is Some),
{
    law_setting_names_the_front_end(setting, m.gui is Some, m.has_fzf);
}

/// The terminal emulator that is started is installed, and no other that is known and
/// installed comes before it.
pub proof fn law_first_installed_terminal(installed: Seq<Seq<char>>, from: int)
    requires
        0 <= from <= known_terminals().len(),
    ensures
        match first_terminal(installed, from) {
            Some(t) => exists|k: int|
                {
                    &&& from <= k < known_terminals().len()
                    &&& #[trigger] known_terminals()[k] == t
                    &&& installed.contains(t.0)
                    &&& forall|j: int|
                        from <= j < k ==> !installed.contains((#[trigger] known_terminals()[j]).0)
                },
            None => forall|j: int|
                from <= j < known_terminals().len() ==> !installed.contains(
                    (#[trigger] known_terminals()[j]).0,
                ),
        },
    decreases known_terminals().len() - from,
{
    let all = known_terminals();
    if from < all.len() {
        if installed.contains(all[from].0) {
            assert(known_terminals()[from] == all[from]);
        } else {
            law_first_installed_terminal(installed, from + 1);
            if first_terminal(installed, from + 1) is Some {
                let t = first_terminal(installed, from + 1)->0;
                let k = choose|k: int|
                    {
                        &&& from + 1 <= k < known_terminals().len()
                        &&& #[trigger] known_terminals()[k] == t
                        &&& installed.contains(t.0)
                        &&& forall|j: int|
                            from + 1 <= j < k ==> !installed.contains(
                                (#[trigger] known_terminals()[j]).0,
                            )
                    };
                assert forall|j: int| from <= j < k implies !installed.contains(
                    (#[trigger] known_terminals()[j]).0,
                ) by {
                    if j > from {
                        assert(from + 1 <= j);
                    }
                }
            } else {
                assert forall|j: int| from <= j < all.len() implies !installed.contains(
                    (#[trigger] known_terminals()[j]).0,
                ) by {
                    if j > from {
                        assert(from + 1 <= j);
                    }
                }
            }
        }
    }
}

/// A version is read from the numbers before and behind the first dot of what is
/// printed, whatever follows.
pub proof fn law_versions_are_read(major: nat, minor: nat, rest: Seq<char>, words: Seq<char>)
    requires
        major <= u32::MAX && minor <= u32::MAX,
        rest.len() == 0 || rest[0] == '.',
        forall|i: int| 0 <= i < rest.len() ==> !text::is_space(#[trigger] rest[i]),
        words.len() == 0 || text::is_space(words[0]),
    ensures
        version_of(text::dec_nat(major).push('.') + text::dec_nat(minor) + rest + words) == Some(
            (major, minor),
        ),
        is_enough(Some((major, minor))) <==> major > 0 || minor >= 71,
{
    let a = text::dec_nat(major);
    let b = text::dec_nat(minor);
    let w = a.push('.') + b + rest;
    text::lemma_dec_nat(major);
    text::lemma_dec_nat(minor);
    text::lemma_dec_nat_value(major);
    text::lemma_dec_nat_value(minor);
    assert forall|i: int| 0 <= i < w.len() implies !text::is_space(#[trigger] w[i]) by {
        if i < a.len() {
            assert(w[i] == a[i]);
            assert('0' <= a[i] <= '9');
        } else if a.len() < i < a.len() + 1 + b.len() {
            assert(w[i] == b[i - a.len() - 1]);
            assert('0' <= b[i - a.len() - 1] <= '9');
        } else if i > a.len() {
            assert(w[i] == rest[i - a.len() - 1 - b.len()]);
        }
    }
    text::lemma_words_head(w, words);
    assert(text::words_of(w + words)[0] == w);
    assert(!a.contains('.')) by {
        assert forall|i: int| 0 <= i < a.len() implies a[i] != '.' by {
            assert('0' <= a[i] <= '9');
        }
    }
    assert(!b.contains('.')) by {
        assert forall|i: int| 0 <= i < b.len() implies b[i] != '.' by {
            assert('0' <= b[i] <= '9');
        }
    }
    assert(w == a.push('.') + (b + rest));
    text::lemma_split_head(a, b + rest, '.');
    assert((b + rest).take(b.len() as int) == b);
    text::lemma_split_first(b + rest, b, '.');
    let p = text::split_on(w, '.');
    assert(p[0] == a && p[1] == text::split_on(b + rest, '.')[0]);
}

/// In a terminal the program runs itself, and what it prints goes into the log.
pub proof fn law_terminal_runs_the_program(exe: Seq<char>, log: Seq<char>)
    ensures
        text::has_prefix(shell_line(exe, log), "exec '"@ + exe + "' tui >> '"@ + log + "'"@),
{
    reveal_strlit("' 2>&1");
    reveal_strlit("'");
    let h = "exec '"@ + exe + "' tui >> '"@ + log + "'"@;
    assert(shell_line(exe, log).take(h.len() as int) == h);
}

} // verus!
