//! Application configuration and session setup: the window title and
//! minimum dimensions a shell runs the engine with, their validation, and
//! the construction of a validated session around an empty table.  The
//! windowing and event loop around a session belong to the shell, not to
//! the engine.

use vstd::prelude::*;
use vstd::string::StrSliceExecFns;
use crate::table::CsvTable;

verus! {

/// Configuration for the application: a window title and minimum
/// dimensions.
#[derive(Debug, Clone)]
pub struct AppConfig {
    window_title: String,
    min_width: u32,
    min_height: u32,
}

impl AppConfig {
    /// The configured title.
    pub closed spec fn title_model(&self) -> Seq<char> {
        self.window_title@
    }

    /// The configured minimum width.
    pub closed spec fn width_model(&self) -> u32 {
        self.min_width
    }

    /// The configured minimum height.
    pub closed spec fn height_model(&self) -> u32 {
        self.min_height
    }

    /// The configuration names a window: a non-empty title and positive
    /// dimensions.
    pub open spec fn valid(&self) -> bool {
        self.title_model().len() > 0 && self.width_model() > 0 && self.height_model() > 0
    }

    /// Creates a configuration with the default title and dimensions.
    pub fn new() -> (r: Self)
        ensures
            r.title_model() == "CSV Navigator"@,
            r.width_model() == 640,
            r.height_model() == 480,
    {
        Self { window_title: "CSV Navigator".to_owned(), min_width: 640, min_height: 480 }
    }

    /// Creates a configuration with a custom title and the default
    /// dimensions.
    pub fn with_title(title: &str) -> (r: Self)
        ensures
            r.title_model() == title@,
            r.width_model() == 640,
            r.height_model() == 480,
    {
        Self { window_title: title.to_owned(), min_width: 640, min_height: 480 }
    }

    /// Creates a configuration with the default title and custom
    /// dimensions.
    pub fn with_dimensions(width: u32, height: u32) -> (r: Self)
        ensures
            r.title_model() == "CSV Navigator"@,
            r.width_model() == width,
            r.height_model() == height,
    {
        Self { window_title: "CSV Navigator".to_owned(), min_width: width, min_height: height }
    }

    /// The window title.
    pub fn window_title(&self) -> (r: &str)
        ensures
            r@ == self.title_model(),
    {
        self.window_title.as_str()
    }

    /// The minimum window width.
    pub fn min_width(&self) -> (r: u32)
        ensures
            r == self.width_model(),
    {
        self.min_width
    }

    /// The minimum window height.
    pub fn min_height(&self) -> (r: u32)
        ensures
            r == self.height_model(),
    {
        self.min_height
    }

    /// The configuration is valid: the title is not empty and both
    /// dimensions are positive.
    pub fn is_valid(&self) -> (r: bool)
        ensures
            r == self.valid(),
    {
        self.window_title.as_str().unicode_len() > 0 && self.min_width > 0 && self.min_height > 0
    }
}

impl Default for AppConfig {
    /// The default configuration.
    fn default() -> (r: Self)
        ensures
            r.title_model() == "CSV Navigator"@,
            r.width_model() == 640,
            r.height_model() == 480,
    {
        Self::new()
    }
}

/// A validated session: the configuration the shell opens its window with,
/// and the table the engine's operations mutate.  The shell owns the
/// window and event loop around it.
pub struct App {
    /// The validated configuration.
    pub config: AppConfig,
    /// The table the session works on.
    pub table: CsvTable,
}

/// Builds a session from a configuration: an invalid configuration is
/// rejected; a valid one yields a session around an empty table.
pub fn create_app_with_config(config: AppConfig) -> (r: Result<App, String>)
    ensures
        r is Ok <==> config.valid(),
        r matches Ok(app) ==> app.config.title_model() == config.title_model()
            && app.config.width_model() == config.width_model() && app.config.height_model()
            == config.height_model() && app.table.rows_model() == Seq::<Seq<Seq<char>>>::empty()
            && app.table.headers_model() is None && app.table.filter_model() is None,
{
    if !config.is_valid() {
        return Err(
            "invalid application configuration: title must not be empty and dimensions must be positive".to_owned(),
        );
    }
    Ok(App { config, table: CsvTable::new() })
}

/// Builds a session with the default configuration.
pub fn create_app() -> (r: Result<App, String>)
    ensures
        r is Ok,
        r matches Ok(app) ==> app.config.title_model() == "CSV Navigator"@
            && app.config.width_model() == 640 && app.config.height_model() == 480
            && app.table.rows_model() == Seq::<Seq<Seq<char>>>::empty(),
{
    let config = AppConfig::new();
    proof {
        reveal_strlit("CSV Navigator");
    }
    create_app_with_config(config)
}

/// Prepares the application from start: a validated session with the
/// default configuration, ready for the shell to open a window over and
/// drive.
pub fn run_app() -> (r: Result<App, String>)
    ensures
        r is Ok,
        r matches Ok(app) ==> app.config.title_model() == "CSV Navigator"@
            && app.table.rows_model() == Seq::<Seq<Seq<char>>>::empty(),
{
    create_app()
}

} // verus!
