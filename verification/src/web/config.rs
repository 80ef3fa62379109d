//! `book.toml`: project, build, site and server settings, and extra
//! shortcodes. Absent settings take the defaults below.
use crate::shortcode::Shortcode;
use crate::strmap::StrMap;
use vstd::prelude::*;

verus! {

/// `[book]`: title, description and authors.
#[derive(Clone, Debug)]
pub struct ProjectConfig {
    pub title: String,
    pub description: String,
    pub authors: Vec<String>,
}

impl Default for ProjectConfig {
    fn default() -> (c: ProjectConfig)
        ensures
            c.title@.len() == 0,
            c.description@.len() == 0,
            c.authors@.len() == 0,
    {
        ProjectConfig { title: String::new(), description: String::new(), authors: Vec::new() }
    }
}

/// `[build]`: source and output directories (relative to the project).
#[derive(Clone, Debug)]
pub struct BuildConfig {
    pub src: String,
    pub out: String,
}

/// Default source directory.
pub fn default_src() -> (s: String)
    ensures
        s@ == "src"@,
{
    String::from_str("src")
}

/// Default output directory.
pub fn default_out() -> (s: String)
    ensures
        s@ == "dist"@,
{
    String::from_str("dist")
}

impl Default for BuildConfig {
    fn default() -> (c: BuildConfig)
        ensures
            c.src@ == "src"@,
            c.out@ == "dist"@,
    {
        BuildConfig { src: default_src(), out: default_out() }
    }
}

/// `[site]`: base URL and optional theme directory.
#[derive(Clone, Debug)]
pub struct SiteConfig {
    pub base_url: String,
    pub theme: Option<String>,
}

/// Default base URL.
pub fn default_base_url() -> (s: String)
    ensures
        s@ == "/"@,
{
    String::from_str("/")
}

impl Default for SiteConfig {
    fn default() -> (c: SiteConfig)
        ensures
            c.base_url@ == "/"@,
            c.theme.is_none(),
    {
        SiteConfig { base_url: default_base_url(), theme: None }
    }
}

/// `[server]`: where the dev server listens.
#[derive(Clone, Debug)]
pub struct ServerConfig {
    pub port: u16,
    pub host: String,
}

/// Default port.
pub fn default_port() -> (p: u16)
    ensures
        p == 3000,
{
    3000
}

/// Default host.
pub fn default_host() -> (s: String)
    ensures
        s@ == "127.0.0.1"@,
{
    String::from_str("127.0.0.1")
}

impl Default for ServerConfig {
    fn default() -> (c: ServerConfig)
        ensures
            c.port == 3000,
            c.host@ == "127.0.0.1"@,
    {
        ServerConfig { port: default_port(), host: default_host() }
    }
}

/// The whole `book.toml`.
#[derive(Clone, Debug)]
pub struct BookConfig {
    pub book: ProjectConfig,
    pub build: BuildConfig,
    pub site: SiteConfig,
    pub server: ServerConfig,
    pub shortcodes: StrMap<Shortcode>,
}

impl Default for BookConfig {
    fn default() -> (c: BookConfig)
        ensures
            c.build.src@ == "src"@,
            c.site.base_url@ == "/"@,
            c.server.port == 3000,
            c.shortcodes.wf(),
            c.shortcodes.view_entries().len() == 0,
    {
        BookConfig {
            book: ProjectConfig::default(),
            build: BuildConfig::default(),
            site: SiteConfig::default(),
            server: ServerConfig::default(),
            shortcodes: StrMap::new(),
        }
    }
}

} // verus!
