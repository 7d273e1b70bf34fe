//! Caller-supplied configuration and the ignore / private-file policy that
//! every scan consults.
use vstd::prelude::*;

use crate::text::{
    chars_of, find_last, has_prefix, has_suffix, last_index_of, occurs_in, str_contains,
    str_ends_with, str_equals, str_starts_with,
};

verus! {

/// Scan and export settings.
#[derive(Debug, Clone)]
pub struct AppConfig {
    /// Exact names of files and folders to skip.
    pub ignored_names: Vec<String>,
    /// Lower-case extensions of files to skip.
    pub binary_extensions: Vec<String>,
    /// Token total above which a caller shows a warning.
    pub token_limit: usize,
    /// Files larger than this many bytes are not read during export.
    pub max_file_size: u64,
    /// Template with the placeholders `{{path}}`, `{{language}}`, `{{content}}`.
    pub output_template: String,
    /// Interface theme: "system", "light" or "dark".
    pub theme: String,
    /// Default name of the export file.
    pub output_filename: String,
}

/// `s` is one of the strings in `list`.
pub open spec fn listed(list: Seq<String>, s: Seq<char>) -> bool {
    exists|i: int| 0 <= i < list.len() && list[i]@ == s
}

pub fn list_contains(list: &Vec<String>, s: &str) -> (r: bool)
    ensures
        r == listed(list@, s@),
{
    let mut i: usize = 0;
    while i < list.len()
        invariant
            i <= list.len(),
            forall|j: int| 0 <= j < i ==> list@[j]@ != s@,
        decreases list.len() - i,
    {
        if str_equals(list[i].as_str(), s) {
            return true;
        }
        i = i + 1;
    }
    false
}

/// What `str::to_lowercase` returns for these characters.
pub uninterp spec fn lower_of(s: Seq<char>) -> Seq<char>;

/// Relies on `str::to_lowercase`: the lower-case mapping of each character,
/// which depends on the characters alone.
#[verifier::external_body]
pub(crate) fn lowercase(s: &str) -> (r: String)
    ensures
        r@ == lower_of(s@),
{
    s.to_lowercase()
}

/// The extension of a file name, as `Path::extension` finds it: the text after
/// the last dot, unless that dot starts the name or the name is "..".
pub open spec fn extension_of(name: Seq<char>) -> Option<Seq<char>> {
    if name == seq!['.', '.'] {
        None
    } else {
        match last_index_of(name, '.') {
            Some(k) => if k > 0 {
                Some(name.skip(k + 1))
            } else {
                None
            },
            None => None,
        }
    }
}

pub fn extension(name: &str) -> (r: Option<String>)
    ensures
        r matches Some(e) ==> extension_of(name@) == Some(e@),
        r is None ==> extension_of(name@) is None,
{
    let cs = chars_of(name);
    if cs.len() == 2 && cs[0] == '.' && cs[1] == '.' {
        assert(name@ =~= seq!['.', '.']);
        return None;
    }
    assert(name@ != seq!['.', '.']) by {
        if name@ == seq!['.', '.'] {
            assert(cs@.len() == 2 && cs@[0] == '.' && cs@[1] == '.');
        }
    }
    match find_last(&cs, '.') {
        Some(k) => {
            if k > 0 {
                Some(name.substring_char(k + 1, cs.len()).to_owned())
            } else {
                None
            }
        },
        None => None,
    }
}

impl AppConfig {
    pub open spec fn ignores_name_spec(&self, name: Seq<char>) -> bool {
        listed(self.ignored_names@, name)
    }

    pub open spec fn ignores_extension_spec(&self, ext: Seq<char>) -> bool {
        listed(self.binary_extensions@, lower_of(ext))
    }

    /// The name is one of the ignored names.
    pub fn is_ignored_name(&self, name: &str) -> (r: bool)
        ensures
            r == self.ignores_name_spec(name@),
    {
        list_contains(&self.ignored_names, name)
    }

    /// The extension, lower-cased, is one of the binary extensions.
    pub fn is_ignored_extension(&self, ext: &str) -> (r: bool)
        ensures
            r == self.ignores_extension_spec(ext@),
    {
        let lower = lowercase(ext);
        list_contains(&self.binary_extensions, lower.as_str())
    }
}

/// A lower-cased file name that looks like it holds secrets.
pub open spec fn private_lower_name(l: Seq<char>) -> bool {
    ||| l == ".env"@
    ||| has_prefix(l, ".env."@)
    ||| has_suffix(l, ".secret"@)
    ||| has_suffix(l, ".key"@)
    ||| has_suffix(l, ".pem"@)
    ||| occurs_in(l, "id_rsa"@)
    ||| occurs_in(l, "secrets"@)
}

pub open spec fn is_private_spec(name: Seq<char>) -> bool {
    private_lower_name(lower_of(name))
}

/// The private-file test on a name that is already lower-cased.
pub fn is_private_lower(l: &str) -> (r: bool)
    ensures
        r == private_lower_name(l@),
{
    str_equals(l, ".env") || str_starts_with(l, ".env.") || str_ends_with(l, ".secret")
        || str_ends_with(l, ".key") || str_ends_with(l, ".pem") || str_contains(l, "id_rsa")
        || str_contains(l, "secrets")
}

/// Names that are never indexed, whatever the configuration: `.env` and
/// `.env.*`, `*.secret`, `*.key`, `*.pem`, and names holding "id_rsa" or
/// "secrets", compared without regard to case.
pub fn is_private_file(name: &str) -> (r: bool)
    ensures
        r == is_private_spec(name@),
{
    let lower = lowercase(name);
    is_private_lower(lower.as_str())
}

} // verus!

verus! {

pub open spec fn names_view(v: Seq<String>) -> Seq<Seq<char>> {
    v.map_values(|s: String| s@)
}

pub open spec fn strs_view(v: Seq<&str>) -> Seq<Seq<char>> {
    v.map_values(|s: &str| s@)
}

/// Owned copies of string slices, in order.
pub fn to_strings(items: &Vec<&str>) -> (r: Vec<String>)
    ensures
        names_view(r@) == strs_view(items@),
{
    let mut r: Vec<String> = Vec::new();
    let mut i: usize = 0;
    while i < items.len()
        invariant
            i <= items.len(),
            names_view(r@) == strs_view(items@.take(i as int)),
        decreases items.len() - i,
    {
        let s = String::from_str(items[i]);
        let ghost before = r@;
        r.push(s);
        assert(r@ == before.push(s));
        assert(items@.take(i + 1) =~= items@.take(i as int).push(items@[i as int]));
        assert(names_view(r@) =~= names_view(before).push(s@));
        assert(strs_view(items@.take(i + 1)) =~= strs_view(items@.take(i as int)).push(items@[i as int]@));
        i = i + 1;
    }
    assert(items@.take(items.len() as int) =~= items@);
    r
}

/// The names skipped by default: version control, editor, dependency and
/// build-output folders, lock files and logs.
pub open spec fn default_ignored_names() -> Seq<Seq<char>> {
    seq![
        ".git"@,
        ".svn"@,
        ".hg"@,
        ".DS_Store"@,
        "Thumbs.db"@,
        ".idea"@,
        ".vscode"@,
        ".vs"@,
        ".history"@,
        "node_modules"@,
        "bower_components"@,
        "jspm_packages"@,
        "web_modules"@,
        "dist"@,
        "build"@,
        "out"@,
        "target"@,
        "bin"@,
        "obj"@,
        "release"@,
        "debug"@,
        "pkg"@,
        ".next"@,
        ".nuxt"@,
        ".cache"@,
        ".parcel-cache"@,
        ".turbo"@,
        ".vercel"@,
        ".output"@,
        "__pycache__"@,
        ".pytest_cache"@,
        ".mypy_cache"@,
        ".tox"@,
        "venv"@,
        ".venv"@,
        "env"@,
        ".env.local"@,
        "bundler"@,
        "vendor"@,
        "Gemfile.lock"@,
        ".bundle"@,
        "checkouts"@,
        ".cargo"@,
        ".rustup"@,
        "go.sum"@,
        "go.work.sum"@,
        ".gradle"@,
        ".settings"@,
        ".classpath"@,
        ".project"@,
        "Properties"@,
        "_build"@,
        "deps"@,
        "_opam"@,
        "storage"@,
        "bootstrap/cache"@,
        "htmlcov"@,
        "coverage"@,
        ".nyc_output"@,
        "*.lock"@,
        "yarn.lock"@,
        "pnpm-lock.yaml"@,
        "composer.lock"@,
        "package-lock.json"@,
        "Cargo.lock"@,
        "*.log"@,
        "*.tlog"@,
        "*.tmp"@,
        "*.temp"@,
        "*.bak"@,
        "*.swp"@,
        "*.swo"@
    ]
}

/// The extensions of binary files skipped by default.
pub open spec fn default_binary_extensions() -> Seq<Seq<char>> {
    seq![
        "icns"@,
        "png"@,
        "jpg"@,
        "jpeg"@,
        "gif"@,
        "bmp"@,
        "ico"@,
        "svg"@,
        "webp"@,
        "tiff"@,
        "tif"@,
        "psd"@,
        "ai"@,
        "eps"@,
        "mp4"@,
        "avi"@,
        "mov"@,
        "wmv"@,
        "flv"@,
        "mkv"@,
        "webm"@,
        "3gp"@,
        "mp3"@,
        "wav"@,
        "flac"@,
        "aac"@,
        "ogg"@,
        "wma"@,
        "m4a"@,
        "zip"@,
        "rar"@,
        "7z"@,
        "tar"@,
        "gz"@,
        "bz2"@,
        "xz"@,
        "iso"@,
        "dmg"@,
        "pkg"@,
        "deb"@,
        "rpm"@,
        "exe"@,
        "dll"@,
        "so"@,
        "dylib"@,
        "bin"@,
        "msi"@,
        "msu"@,
        "ttf"@,
        "otf"@,
        "woff"@,
        "woff2"@,
        "eot"@,
        "pdf"@,
        "doc"@,
        "docx"@,
        "xls"@,
        "xlsx"@,
        "ppt"@,
        "pptx"@,
        "odt"@,
        "ods"@,
        "sqlite"@,
        "db"@,
        "db3"@,
        "mdb"@,
        "accdb"@,
        "pyc"@,
        "pyo"@,
        "pyd"@,
        "class"@,
        "jar"@,
        "war"@,
        "ear"@,
        "ds_store"@,
        "thumbs.db"@
    ]
}

pub open spec fn default_template_spec() -> Seq<char> {
    "## {{path}}\n\n```{{language}}\n{{content}}\n```\n\n---\n\n"@
}

pub fn default_token_limit() -> (r: usize)
    ensures
        r == 128000,
{
    128000
}

pub fn default_max_file_size() -> (r: u64)
    ensures
        r == 1048576,
{
    1024 * 1024
}

pub fn default_output_template() -> (r: String)
    ensures
        r@ == default_template_spec(),
{
    String::from_str("## {{path}}\n\n```{{language}}\n{{content}}\n```\n\n---\n\n")
}

pub fn default_theme() -> (r: String)
    ensures
        r@ == "system"@,
{
    String::from_str("system")
}

pub fn default_output_filename() -> (r: String)
    ensures
        r@ == "output.md"@,
{
    String::from_str("output.md")
}

fn default_ignored_list() -> (r: Vec<String>)
    ensures
        names_view(r@) == default_ignored_names(),
{
    let items: Vec<&str> = vec![
        ".git",
        ".svn",
        ".hg",
        ".DS_Store",
        "Thumbs.db",
        ".idea",
        ".vscode",
        ".vs",
        ".history",
        "node_modules",
        "bower_components",
        "jspm_packages",
        "web_modules",
        "dist",
        "build",
        "out",
        "target",
        "bin",
        "obj",
        "release",
        "debug",
        "pkg",
        ".next",
        ".nuxt",
        ".cache",
        ".parcel-cache",
        ".turbo",
        ".vercel",
        ".output",
        "__pycache__",
        ".pytest_cache",
        ".mypy_cache",
        ".tox",
        "venv",
        ".venv",
        "env",
        ".env.local",
        "bundler",
        "vendor",
        "Gemfile.lock",
        ".bundle",
        "checkouts",
        ".cargo",
        ".rustup",
        "go.sum",
        "go.work.sum",
        ".gradle",
        ".settings",
        ".classpath",
        ".project",
        "Properties",
        "_build",
        "deps",
        "_opam",
        "storage",
        "bootstrap/cache",
        "htmlcov",
        "coverage",
        ".nyc_output",
        "*.lock",
        "yarn.lock",
        "pnpm-lock.yaml",
        "composer.lock",
        "package-lock.json",
        "Cargo.lock",
        "*.log",
        "*.tlog",
        "*.tmp",
        "*.temp",
        "*.bak",
        "*.swp",
        "*.swo"
    ];
    let r = to_strings(&items);
    assert(strs_view(items@) =~= default_ignored_names());
    r
}

fn default_binary_list() -> (r: Vec<String>)
    ensures
        names_view(r@) == default_binary_extensions(),
{
    let items: Vec<&str> = vec![
        "icns",
        "png",
        "jpg",
        "jpeg",
        "gif",
        "bmp",
        "ico",
        "svg",
        "webp",
        "tiff",
        "tif",
        "psd",
        "ai",
        "eps",
        "mp4",
        "avi",
        "mov",
        "wmv",
        "flv",
        "mkv",
        "webm",
        "3gp",
        "mp3",
        "wav",
        "flac",
        "aac",
        "ogg",
        "wma",
        "m4a",
        "zip",
        "rar",
        "7z",
        "tar",
        "gz",
        "bz2",
        "xz",
        "iso",
        "dmg",
        "pkg",
        "deb",
        "rpm",
        "exe",
        "dll",
        "so",
        "dylib",
        "bin",
        "msi",
        "msu",
        "ttf",
        "otf",
        "woff",
        "woff2",
        "eot",
        "pdf",
        "doc",
        "docx",
        "xls",
        "xlsx",
        "ppt",
        "pptx",
        "odt",
        "ods",
        "sqlite",
        "db",
        "db3",
        "mdb",
        "accdb",
        "pyc",
        "pyo",
        "pyd",
        "class",
        "jar",
        "war",
        "ear",
        "ds_store",
        "thumbs.db"
    ];
    let r = to_strings(&items);
    assert(strs_view(items@) =~= default_binary_extensions());
    r
}

impl Default for AppConfig {
    fn default() -> (r: AppConfig)
        ensures
            names_view(r.ignored_names@) == default_ignored_names(),
            names_view(r.binary_extensions@) == default_binary_extensions(),
            r.token_limit == 128000,
            r.max_file_size == 1048576,
            r.output_template@ == default_template_spec(),
            r.theme@ == "system"@,
            r.output_filename@ == "output.md"@,
    {
        AppConfig {
            ignored_names: default_ignored_list(),
            binary_extensions: default_binary_list(),
            token_limit: default_token_limit(),
            max_file_size: default_max_file_size(),
            output_template: default_output_template(),
            theme: default_theme(),
            output_filename: default_output_filename(),
        }
    }
}

} // verus!
