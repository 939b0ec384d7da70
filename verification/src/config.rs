//! Settings: their defaults, how a configuration file fills them, and where
//! the files of the program lie.

use crate::pattern;
use crate::text;
use regex::Regex;
use vstd::prelude::*;

verus! {

pub const MAX_ITEMS: usize = 750;

pub const PREVIEW_WIDTH: usize = 100;

pub const MIN_STORE_LENGTH: usize = 1;

/// What is never stored unless the settings say otherwise: texts with a word that
/// speaks of credentials, links into password managers and authenticators, and the
/// placeholders of KeePassXC.
pub const IGNORE_REGEX: &'static str =
    "(?i)password|secret|token|otp|auth|\\bop://|\\botpauth(?:-migration)?://|\\bbitwarden://|\\{REF:|\\{TOTP\\}|\\{TIMEOTP\\}";

pub const TUI_BACKEND: &'static str = "auto";

pub const CAPTURE_TIMEOUT_SECS: u64 = 5;

/// One mebibyte.
pub const MAX_CLIP_BYTES: usize = 1_048_576;

/// Ten mebibytes.
pub const MAX_IMAGE_BYTES: usize = 10_485_760;

/// Two hundred mebibytes.
pub const MAX_IMAGE_TOTAL_BYTES: usize = 209_715_200;

pub const ENABLE_IMAGE_PREVIEW: bool = false;

pub const PINNED_ON_TOP: bool = true;

pub const ENABLE_PREVIEW: bool = true;

pub const NOTIFY_ENABLED: bool = true;

pub const CAPTURE_PRIMARY: bool = false;

/// The settings in force.
#[derive(Debug, Clone)]
pub struct Config {
    /// How many entries the history keeps.
    pub max_items: usize,
    /// Characters of the one-line preview.
    pub preview_width: usize,
    /// Texts with fewer characters are not stored.
    pub min_store_length: usize,
    /// Whether images are captured and previewed.
    pub enable_image_preview: bool,
    /// Texts that match this expression are not stored.
    pub ignore_regex: String,
    /// Whether pinned entries come first in the list.
    pub pinned_on_top: bool,
    /// `auto`, `native`, `fzf` or `fuzzel`.
    pub tui_backend: String,
    pub enable_preview: bool,
    /// Seconds after which one capture is abandoned.
    pub capture_timeout_secs: u64,
    /// The largest text that is stored, in bytes.
    pub max_clip_bytes: usize,
    /// The largest image that is stored, in bytes.
    pub max_image_bytes: usize,
    pub notify_enabled: bool,
    /// The quota of all images together, in bytes; zero for none.
    pub max_image_total_bytes: usize,
    /// Whether the primary selection is captured too.
    pub capture_primary: bool,
    /// `ignore_regex` compiled; `None` where it is no valid expression, and
    /// then nothing is filtered by it.
    pub ignore_re: Option<Regex>,
}

/// The entries of a configuration file; `None` for what the file leaves out.
#[derive(Debug, Clone)]
pub struct ConfigFile {
    pub max_items: Option<usize>,
    pub preview_width: Option<usize>,
    pub min_store_length: Option<usize>,
    pub enable_image_preview: Option<bool>,
    pub ignore_regex: Option<String>,
    pub pinned_on_top: Option<bool>,
    pub tui_backend: Option<String>,
    pub enable_preview: Option<bool>,
    pub capture_timeout_secs: Option<u64>,
    pub max_clip_bytes: Option<usize>,
    pub max_image_bytes: Option<usize>,
    pub notify_enabled: Option<bool>,
    pub max_image_total_bytes: Option<usize>,
    pub capture_primary: Option<bool>,
}

impl ConfigFile {
    /// A file without entries.
    pub fn empty() -> (f: ConfigFile)
        ensures
            f.is_empty_file(),
    {
        ConfigFile {
            max_items: None,
            preview_width: None,
            min_store_length: None,
            enable_image_preview: None,
            ignore_regex: None,
            pinned_on_top: None,
            tui_backend: None,
            enable_preview: None,
            capture_timeout_secs: None,
            max_clip_bytes: None,
            max_image_bytes: None,
            notify_enabled: None,
            max_image_total_bytes: None,
            capture_primary: None,
        }
    }

    /// Whether the file sets nothing.
    pub open spec fn is_empty_file(self) -> bool {
        &&& self.max_items is None
        &&& self.preview_width is None
        &&& self.min_store_length is None
        &&& self.enable_image_preview is None
        &&& self.ignore_regex is None
        &&& self.pinned_on_top is None
        &&& self.tui_backend is None
        &&& self.enable_preview is None
        &&& self.capture_timeout_secs is None
        &&& self.max_clip_bytes is None
        &&& self.max_image_bytes is None
        &&& self.notify_enabled is None
        &&& self.max_image_total_bytes is None
        &&& self.capture_primary is None
    }
}

/// The entry of the file, or else the default.
pub open spec fn entry_or<T>(entry: Option<T>, default: T) -> T {
    match entry {
        Some(v) => v,
        None => default,
    }
}

/// The text entry of the file, or else the default.
pub open spec fn text_or(entry: Option<String>, default: Seq<char>) -> Seq<char> {
    match entry {
        Some(v) => v@,
        None => default,
    }
}

/// Whether a configuration is what the file's entries and the defaults make.
pub open spec fn filled_from(c: Config, f: ConfigFile) -> bool {
    &&& c.max_items == entry_or(f.max_items, MAX_ITEMS)
    &&& c.preview_width == entry_or(f.preview_width, PREVIEW_WIDTH)
    &&& c.min_store_length == entry_or(f.min_store_length, MIN_STORE_LENGTH)
    &&& c.enable_image_preview == entry_or(f.enable_image_preview, ENABLE_IMAGE_PREVIEW)
    &&& c.ignore_regex@ == text_or(f.ignore_regex, IGNORE_REGEX@)
    &&& c.pinned_on_top == entry_or(f.pinned_on_top, PINNED_ON_TOP)
    &&& c.tui_backend@ == text_or(f.tui_backend, TUI_BACKEND@)
    &&& c.enable_preview == entry_or(f.enable_preview, ENABLE_PREVIEW)
    &&& c.capture_timeout_secs == entry_or(f.capture_timeout_secs, CAPTURE_TIMEOUT_SECS)
    &&& c.max_clip_bytes == entry_or(f.max_clip_bytes, MAX_CLIP_BYTES)
    &&& c.max_image_bytes == entry_or(f.max_image_bytes, MAX_IMAGE_BYTES)
    &&& c.notify_enabled == entry_or(f.notify_enabled, NOTIFY_ENABLED)
    &&& c.max_image_total_bytes == entry_or(f.max_image_total_bytes, MAX_IMAGE_TOTAL_BYTES)
    &&& c.capture_primary == entry_or(f.capture_primary, CAPTURE_PRIMARY)
    &&& c.ignore_re == pattern::compiled(c.ignore_regex@)
}

/// Whether a configuration holds the defaults.
pub open spec fn is_default(c: Config) -> bool {
    exists|f: ConfigFile| f.is_empty_file() && #[trigger] filled_from(c, f)
}

/// What the environment says about directories.
#[derive(Debug, Clone)]
pub struct Dirs {
    /// The variable `XDG_STATE_HOME`.
    pub xdg_state_home: Option<String>,
    pub home: Option<String>,
    /// The directory for configuration files.
    pub config: Option<String>,
    /// The directory for caches.
    pub cache: Option<String>,
    /// The directory for temporary files.
    pub temp: String,
}

/// A relative path appended to a directory.
pub open spec fn joined(dir: Seq<char>, name: Seq<char>) -> Seq<char> {
    if dir.len() == 0 || dir.last() == '/' {
        dir + name
    } else {
        dir.push('/') + name
    }
}

/// Appends a relative path to a directory.
pub fn join(dir: &str, name: &str) -> (p: String)
    ensures
        p@ == joined(dir@, name@),
{
    let v = text::chars_of(dir);
    let mut p = dir.to_owned();
    if v.len() > 0 && v[v.len() - 1] != '/' {
        p.push('/');
    }
    p.append(name);
    p
}

/// The directory of the history and of everything that must outlive a cache:
/// under an absolute `XDG_STATE_HOME`, else under the home directory, else
/// among the temporary files.
pub open spec fn state_path(d: Dirs) -> Seq<char> {
    if d.xdg_state_home is Some && text::has_prefix(d.xdg_state_home->0@, "/"@) {
        joined(d.xdg_state_home->0@, "niri-clip"@)
    } else if d.home is Some {
        joined(d.home->0@, ".local/state/niri-clip"@)
    } else {
        joined(d.temp@, "niri-clip"@)
    }
}

/// The directory of the configuration file.
pub open spec fn config_home(d: Dirs) -> Seq<char> {
    match d.config {
        Some(c) => c@,
        None => joined(d.home->0@, ".config"@),
    }
}

impl Config {
    /// The settings that a file's entries give; `None` where there is no file
    /// or it could not be read as one.
    pub fn load(file: Option<ConfigFile>) -> (c: Config)
        ensures
            match file {
                Some(f) => filled_from(c, f),
                None => is_default(c),
            },
    {
        let f = match file {
            Some(f) => f,
            None => ConfigFile::empty(),
        };
        let ignore_regex = match f.ignore_regex {
            Some(p) => p,
            None => IGNORE_REGEX.to_owned(),
        };
        let tui_backend = match f.tui_backend {
            Some(p) => p,
            None => TUI_BACKEND.to_owned(),
        };
        let ignore_re = pattern::compile(ignore_regex.as_str());
        let c = Config {
            max_items: f.max_items.unwrap_or(MAX_ITEMS),
            preview_width: f.preview_width.unwrap_or(PREVIEW_WIDTH),
            min_store_length: f.min_store_length.unwrap_or(MIN_STORE_LENGTH),
            enable_image_preview: f.enable_image_preview.unwrap_or(ENABLE_IMAGE_PREVIEW),
            ignore_regex,
            pinned_on_top: f.pinned_on_top.unwrap_or(PINNED_ON_TOP),
            tui_backend,
            enable_preview: f.enable_preview.unwrap_or(ENABLE_PREVIEW),
            capture_timeout_secs: f.capture_timeout_secs.unwrap_or(CAPTURE_TIMEOUT_SECS),
            max_clip_bytes: f.max_clip_bytes.unwrap_or(MAX_CLIP_BYTES),
            max_image_bytes: f.max_image_bytes.unwrap_or(MAX_IMAGE_BYTES),
            notify_enabled: f.notify_enabled.unwrap_or(NOTIFY_ENABLED),
            max_image_total_bytes: f.max_image_total_bytes.unwrap_or(MAX_IMAGE_TOTAL_BYTES),
            capture_primary: f.capture_primary.unwrap_or(CAPTURE_PRIMARY),
            ignore_re,
        };
        assert(filled_from(c, f));
        c
    }

    /// The path of the configuration file.
    pub fn path(d: &Dirs) -> (p: String)
        requires
            d.config is Some || d.home is Some,
        ensures
            p@ == joined(config_home(*d), "niri-clip/config.toml"@),
    {
        match &d.config {
            Some(c) => join(c.as_str(), "niri-clip/config.toml"),
            None => match &d.home {
                Some(h) => join(join(h.as_str(), ".config").as_str(), "niri-clip/config.toml"),
                None => String::new(),
            },
        }
    }

    /// The state directory.
    pub fn state_dir(d: &Dirs) -> (p: String)
        ensures
            p@ == state_path(*d),
    {
        if let Some(v) = &d.xdg_state_home {
            if text::starts_with(v.as_str(), "/") {
                return join(v.as_str(), "niri-clip");
            }
        }
        match &d.home {
            Some(h) => join(h.as_str(), ".local/state/niri-clip"),
            None => join(d.temp.as_str(), "niri-clip"),
        }
    }

    /// The directory of the image files.
    pub fn images_dir(d: &Dirs) -> (p: String)
        ensures
            p@ == joined(state_path(*d), "images"@),
    {
        join(Config::state_dir(d).as_str(), "images")
    }

    /// The path of the database.
    pub fn db_path(d: &Dirs) -> (p: String)
        ensures
            p@ == joined(state_path(*d), "db.sqlite"@),
    {
        join(Config::state_dir(d).as_str(), "db.sqlite")
    }

    /// Where the database once lay; it is copied from there once.
    pub fn legacy_db_path(d: &Dirs) -> (p: String)
        ensures
            p@ == joined(text_or(d.cache, "/tmp"@), "niri-clip/db.sqlite"@),
    {
        match &d.cache {
            Some(c) => join(c.as_str(), "niri-clip/db.sqlite"),
            None => join("/tmp", "niri-clip/db.sqlite"),
        }
    }

    /// The directories that must exist before anything is written.
    pub fn ensure_dirs(d: &Dirs) -> (v: Vec<String>)
        requires
            d.config is Some || d.home is Some,
        ensures
            text::texts(v@) == seq![joined(config_home(*d), "niri-clip"@), state_path(*d)],
    {
        let base = match &d.config {
            Some(c) => c.as_str().to_owned(),
            None => match &d.home {
                Some(h) => join(h.as_str(), ".config"),
                None => String::new(),
            },
        };
        let mut v: Vec<String> = Vec::new();
        v.push(join(base.as_str(), "niri-clip"));
        v.push(Config::state_dir(d));
        v
    }
}

impl Default for Config {
    fn default() -> (c: Config)
        ensures
            is_default(c),
    {
        Config::load(None)
    }
}

/// A file that sets nothing is as good as no file: both give the defaults.
pub proof fn law_empty_file_gives_defaults(c: Config, f: ConfigFile)
    requires
        f.is_empty_file(),
    ensures
        filled_from(c, f) <==> is_default(c),
{
    if is_default(c) {
        let g = choose|g: ConfigFile| g.is_empty_file() && #[trigger] filled_from(c, g);
        assert(filled_from(c, f));
    }
}

/// Every setting that the file gives counts as it stands there, and every other is the
/// default.
pub proof fn law_settings_of_the_file_count(c: Config, f: ConfigFile)
    requires
        filled_from(c, f),
    ensures
        f.max_items matches Some(v) ==> c.max_items == v,
        f.preview_width matches Some(v) ==> c.preview_width == v,
        f.min_store_length matches Some(v) ==> c.min_store_length == v,
        f.enable_image_preview matches Some(v) ==> c.enable_image_preview == v,
        f.ignore_regex matches Some(v) ==> c.ignore_regex@ == v@,
        f.pinned_on_top matches Some(v) ==> c.pinned_on_top == v,
        f.tui_backend matches Some(v) ==> c.tui_backend@ == v@,
        f.enable_preview matches Some(v) ==> c.enable_preview == v,
        f.capture_timeout_secs matches Some(v) ==> c.capture_timeout_secs == v,
        f.max_clip_bytes matches Some(v) ==> c.max_clip_bytes == v,
        f.max_image_bytes matches Some(v) ==> c.max_image_bytes == v,
        f.notify_enabled matches Some(v) ==> c.notify_enabled == v,
        f.max_image_total_bytes matches Some(v) ==> c.max_image_total_bytes == v,
        f.capture_primary matches Some(v) ==> c.capture_primary == v,
        f.max_items is None ==> c.max_items == 750,
        f.preview_width is None ==> c.preview_width == 100,
        f.min_store_length is None ==> c.min_store_length == 1,
        f.enable_image_preview is None ==> !c.enable_image_preview,
        f.ignore_regex is None ==> c.ignore_regex@ == IGNORE_REGEX@,
        f.pinned_on_top is None ==> c.pinned_on_top,
        f.tui_backend is None ==> c.tui_backend@ == "auto"@,
        f.enable_preview is None ==> c.enable_preview,
        f.capture_timeout_secs is None ==> c.capture_timeout_secs == 5,
        f.max_clip_bytes is None ==> c.max_clip_bytes == 1024 * 1024,
        f.max_image_bytes is None ==> c.max_image_bytes == 10 * 1024 * 1024,
        f.notify_enabled is None ==> c.notify_enabled,
        f.max_image_total_bytes is None ==> c.max_image_total_bytes == 200 * 1024 * 1024,
        f.capture_primary is None ==> !c.capture_primary,
        c.ignore_re == pattern::compiled(c.ignore_regex@),
{
}

/// The state is kept under the variable for it where that holds an absolute path, else
/// under the home directory, else under the directory for temporary files.
pub proof fn law_state_has_its_place(d: Dirs)
    ensures
        ({
            let p = state_path(d);
            let absolute = d.xdg_state_home is Some && d.xdg_state_home->0@.len() > 0
                && d.xdg_state_home->0@[0] == '/';
            &&& absolute ==> text::has_prefix(p, d.xdg_state_home->0@)
            &&& !absolute && d.home is Some ==> text::has_prefix(p, d.home->0@)
            &&& !absolute && d.home is None ==> text::has_prefix(p, d.temp@)
            &&& absolute ==> p == joined(d.xdg_state_home->0@, "niri-clip"@)
            &&& !absolute && d.home is Some ==> p == joined(d.home->0@, ".local/state/niri-clip"@)
            &&& !absolute && d.home is None ==> p == joined(d.temp@, "niri-clip"@)
        }),
        d.config matches Some(c) ==> config_home(d) == c@,
        d.config is None && d.home is Some ==> config_home(d) == joined(d.home->0@, ".config"@),
{
    reveal_strlit("/");
    let p = state_path(d);
    if d.xdg_state_home is Some {
        let x = d.xdg_state_home->0@;
        assert(p.take(x.len() as int) == x || !text::has_prefix(x, "/"@));
        if x.len() > 0 && x[0] == '/' {
            assert(x.take(1) == "/"@);
        }
        if text::has_prefix(x, "/"@) {
            assert(x.take(1)[0] == "/"@[0]);
        }
    }
    if d.home is Some {
        let h = d.home->0@;
        assert(joined(h, ".local/state/niri-clip"@).take(h.len() as int) == h);
    }
    assert(joined(d.temp@, "niri-clip"@).take(d.temp@.len() as int) == d.temp@);
}

} // verus!
