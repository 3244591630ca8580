use vstd::prelude::*;

verus! {

/// How a custom-served file is answered: its content type, and the spans of it that a
/// template step replaces.
pub struct ServeFilesCustomExtra {
    pub content_type: String,
    pub replace: Option<Vec<(String, (usize, usize))>>,
}

/// The server's settings: whether logs use local time, whether debugging is on, the
/// addresses to bind, and the files served under custom paths (each path with its file
/// and how it is answered).
pub struct Config {
    pub use_localtime: bool,
    pub enable_debug: bool,
    pub addr_bind: Vec<String>,
    pub serve_files_custom: Vec<(String, (String, Option<ServeFilesCustomExtra>))>,
}

impl Config {
    /// The settings before any configuration file is read: local time on, debugging
    /// off, no address and no served file.
    pub fn new() -> (r: Self)
        ensures
            r.use_localtime,
            !r.enable_debug,
            r.addr_bind@.len() == 0,
            r.serve_files_custom@.len() == 0,
    {
        Config {
            use_localtime: true,
            enable_debug: false,
            addr_bind: Vec::new(),
            serve_files_custom: Vec::new(),
        }
    }

    /// Whether the settings call for a warning: true when no file is served.
    pub fn check(&self) -> (r: bool)
        ensures
            r == (self.serve_files_custom@.len() == 0),
    {
        self.serve_files_custom.len() == 0
    }
}

} // verus!
