//! Viewer settings, their defaults and their valid ranges.
use vstd::prelude::*;
use crate::error::XtvError;
use crate::text::{append_decimal, append_str};

verus! {

/// The colour theme used by default.
pub const DEFAULT_THEME: &'static str = "dark";

/// The file size from which a file is streamed by default: 100 MiB.
pub const DEFAULT_STREAMING_THRESHOLD: u64 = 104_857_600;

/// Lines moved by one page scroll by default.
pub const DEFAULT_PAGE_SCROLL_LINES: usize = 10;

/// Display settings.
#[derive(Debug, Clone)]
pub struct UiConfig {
    /// `dark` or `light`.
    pub theme: String,
    /// Levels expanded on opening: 0 none, -1 all.
    pub default_expanded_depth: i32,
}

/// When to stream instead of reading the whole file.
#[derive(Debug, Clone)]
pub struct StreamingConfig {
    pub threshold_bytes: u64,
    pub enabled: bool,
}

/// Navigation settings.
#[derive(Debug, Clone)]
pub struct NavigationConfig {
    pub page_scroll_lines: usize,
}

/// All settings.
#[derive(Debug, Clone)]
pub struct Config {
    pub ui: UiConfig,
    pub streaming: StreamingConfig,
    pub navigation: NavigationConfig,
}

impl Default for UiConfig {
    fn default() -> (r: UiConfig)
        ensures
            r.theme@ == DEFAULT_THEME@,
            r.default_expanded_depth == 0,
    {
        UiConfig { theme: DEFAULT_THEME.to_owned(), default_expanded_depth: 0 }
    }
}

impl Default for StreamingConfig {
    fn default() -> (r: StreamingConfig)
        ensures
            r.threshold_bytes == DEFAULT_STREAMING_THRESHOLD,
            r.enabled,
    {
        StreamingConfig { threshold_bytes: DEFAULT_STREAMING_THRESHOLD, enabled: true }
    }
}

impl Default for NavigationConfig {
    fn default() -> (r: NavigationConfig)
        ensures
            r.page_scroll_lines == DEFAULT_PAGE_SCROLL_LINES,
    {
        NavigationConfig { page_scroll_lines: DEFAULT_PAGE_SCROLL_LINES }
    }
}

impl Default for Config {
    fn default() -> (r: Config)
        ensures
            r.ui.theme@ == DEFAULT_THEME@,
            r.ui.default_expanded_depth == 0,
            r.streaming.threshold_bytes == DEFAULT_STREAMING_THRESHOLD,
            r.streaming.enabled,
            r.navigation.page_scroll_lines == DEFAULT_PAGE_SCROLL_LINES,
    {
        Config {
            ui: UiConfig::default(),
            streaming: StreamingConfig::default(),
            navigation: NavigationConfig::default(),
        }
    }
}

/// Whether the settings are in range: a known theme, a depth of at least
/// -1, a positive threshold and a positive page size.
pub open spec fn config_valid(c: Config) -> bool {
    &&& (c.ui.theme@ == "dark"@ || c.ui.theme@ == "light"@)
    &&& c.ui.default_expanded_depth >= -1
    &&& c.streaming.threshold_bytes > 0
    &&& c.navigation.page_scroll_lines > 0
}

/// Text of a signed integer.
pub open spec fn signed_decimal(n: i32) -> Seq<char> {
    if n >= 0 {
        crate::text::decimal(n as nat)
    } else {
        "-"@ + crate::text::decimal((-n) as nat)
    }
}

/// The configuration-file text of the given settings.
pub open spec fn config_text(theme: Seq<char>, depth: i32, threshold: u64, enabled: bool, lines: usize) -> Seq<char> {
    "[ui]\ntheme = \""@ + theme + "\"\ndefault_expanded_depth = "@ + signed_decimal(depth)
        + "\n\n[streaming]\nthreshold_bytes = "@ + crate::text::decimal(threshold as nat) + "\nenabled = "@
        + (if enabled { "true"@ } else { "false"@ }) + "\n\n[navigation]\npage_scroll_lines = "@
        + crate::text::decimal(lines as nat) + "\n"@
}

fn same_text(a: &String, b: &str) -> (r: bool)
    ensures
        r == (a@ == b@),
{
    let x = crate::text::chars_of(a.as_str());
    let y = crate::text::chars_of(b);
    crate::text::same_chars(&x, &y)
}

fn append_i32(out: &mut String, n: i32)
    ensures
        final(out)@ == old(out)@ + signed_decimal(n),
{
    if n >= 0 {
        append_decimal(out, n as usize);
    } else {
        append_str(out, "-");
        let m: i64 = -(n as i64);
        append_decimal(out, m as usize);
        assert(old(out)@ + "-"@ + crate::text::decimal((-n) as nat) =~= old(out)@ + ("-"@ + crate::text::decimal((-n) as nat)));
    }
}

impl Config {
    /// Checks that every setting is in range; the error names the first
    /// one that is not.
    pub fn validate(&self) -> (r: Result<(), XtvError>)
        ensures
            r is Ok <==> config_valid(*self),
            r is Err ==> r matches Err(XtvError::Config(_)),
    {
        if !same_text(&self.ui.theme, "dark") && !same_text(&self.ui.theme, "light") {
            let mut m = String::new();
            append_str(&mut m, "Invalid theme '");
            append_str(&mut m, self.ui.theme.as_str());
            append_str(&mut m, "'. Must be 'dark' or 'light'");
            return Err(XtvError::Config(m));
        }
        if self.ui.default_expanded_depth < -1 {
            let mut m = String::new();
            append_str(&mut m, "Invalid default_expanded_depth ");
            append_i32(&mut m, self.ui.default_expanded_depth);
            append_str(&mut m, ". Must be >= -1");
            return Err(XtvError::Config(m));
        }
        if self.streaming.threshold_bytes == 0 {
            let mut m = String::new();
            append_str(&mut m, "Invalid streaming threshold: must be > 0");
            return Err(XtvError::Config(m));
        }
        if self.navigation.page_scroll_lines == 0 {
            let mut m = String::new();
            append_str(&mut m, "Invalid page_scroll_lines: must be > 0");
            return Err(XtvError::Config(m));
        }
        Ok(())
    }

    /// The settings as configuration-file text.
    pub fn to_config_text(&self) -> (r: String)
        ensures
            r@ == config_text(
                self.ui.theme@,
                self.ui.default_expanded_depth,
                self.streaming.threshold_bytes,
                self.streaming.enabled,
                self.navigation.page_scroll_lines,
            ),
    {
        let mut s = String::new();
        append_str(&mut s, "[ui]\ntheme = \"");
        append_str(&mut s, self.ui.theme.as_str());
        append_str(&mut s, "\"\ndefault_expanded_depth = ");
        append_i32(&mut s, self.ui.default_expanded_depth);
        append_str(&mut s, "\n\n[streaming]\nthreshold_bytes = ");
        crate::text::append_decimal_u64(&mut s, self.streaming.threshold_bytes);
        append_str(&mut s, "\nenabled = ");
        append_str(&mut s, if self.streaming.enabled { "true" } else { "false" });
        append_str(&mut s, "\n\n[navigation]\npage_scroll_lines = ");
        append_decimal(&mut s, self.navigation.page_scroll_lines);
        append_str(&mut s, "\n");
        assert(s@ =~= config_text(
            self.ui.theme@,
            self.ui.default_expanded_depth,
            self.streaming.threshold_bytes,
            self.streaming.enabled,
            self.navigation.page_scroll_lines,
        ));
        s
    }

    /// A sample configuration file: the default settings as text.
    pub fn sample_config() -> (r: String)
        ensures
            r@ == config_text(DEFAULT_THEME@, 0, DEFAULT_STREAMING_THRESHOLD, true, DEFAULT_PAGE_SCROLL_LINES),
    {
        let c = Config::default();
        c.to_config_text()
    }
}

} // verus!
