//! The remote catalog's manifest model and the decisions of a remote install:
//! which file to fetch, where the package and the logo are written.
use vstd::prelude::*;
use crate::paths::{file_name, file_name_of, join_path, joined_path};

verus! {

/// Failure of a catalog request or of staging what it returned.
#[derive(Clone, Debug, PartialEq, Eq)]
pub enum Error {
    InvalidUri(String),
    GenericHttpError(String),
    Io(String),
    Json(String),
    UnknownError(String),
}

pub const DEFAULT_SERVICE_ROOT: &'static str = "https://spelunky.fyi";

/// Where manifests live, under the service root's path.
pub const MANIFEST_SUBPATH: &'static str = "api/mods";

#[derive(Clone, Debug, PartialEq, Eq)]
pub struct User {
    pub username: String,
}

/// One published file of a mod.
#[derive(Clone, Debug, PartialEq, Eq)]
pub struct ModFile {
    pub id: String,
    /// Creation time, in milliseconds since the Unix epoch (UTC).
    pub created_at: i64,
    pub filename: String,
    pub downloads: i64,
    pub download_url: String,
}

#[derive(Clone, Debug, PartialEq, Eq)]
pub struct Image {
    pub id: String,
    /// Creation time, in milliseconds since the Unix epoch (UTC).
    pub created_at: i64,
    pub image_url: String,
}

/// A mod's manifest as the catalog publishes it.
#[derive(Clone, Debug, PartialEq, Eq)]
pub struct Mod {
    pub name: String,
    pub slug: String,
    pub self_url: String,
    pub submitter: User,
    pub collaborators: Vec<User>,
    pub description: String,
    pub mod_type: i32,
    pub game: i32,
    pub logo: Option<String>,
    pub details: String,
    pub comments_allowed: bool,
    pub is_listed: bool,
    pub adult_content: bool,
    pub mod_files: Vec<ModFile>,
}

#[derive(Clone, Debug, PartialEq, Eq)]
pub struct DownloadedLogo {
    pub content_type: String,
    pub file: String,
}

/// A fetched mod, staged in a temporary directory.
#[derive(Clone, Debug, PartialEq, Eq)]
pub struct DownloadedMod {
    pub manifest: Mod,
    pub mod_file: ModFile,
    pub main_file: String,
    pub logo_file: Option<DownloadedLogo>,
}

impl ModFile {
    /// A field-by-field copy.
    pub fn duplicate(&self) -> (r: ModFile)
        ensures
            r == *self,
    {
        ModFile {
            id: self.id.clone(),
            created_at: self.created_at,
            filename: self.filename.clone(),
            downloads: self.downloads,
            download_url: self.download_url.clone(),
        }
    }
}

/// The path of a mod's manifest under the service root.
/// The path of a mod's manifest below a service root whose path is `root_path`.
pub open spec fn manifest_path_of(root_path: Seq<char>, code: Seq<char>) -> Seq<char> {
    joined_path(joined_path(joined_path("/"@, root_path), MANIFEST_SUBPATH@), code)
}

/// The path of a mod's manifest below a service root whose path is
/// `root_path`: `<root>/api/mods/<code>`.
pub fn manifest_path(root_path: &str, code: &str) -> (r: String)
    ensures
        r@ == manifest_path_of(root_path@, code@),
{
    let base = join_path("/", root_path);
    let dir = join_path(base.as_str(), MANIFEST_SUBPATH);
    join_path(dir.as_str(), code)
}

/// The URI `base` with its path and query replaced by `path`, as `http`
/// assembles it; `None` where either text is refused.
pub uninterp spec fn uri_with_path_of(base: Seq<char>, path: Seq<char>) -> Option<Seq<char>>;

/// Relies on `http::Uri`'s `FromStr`, `PathAndQuery`'s `FromStr` and
/// `Uri::from_parts`: the assembled URI depends on the two texts alone.
#[verifier::external_body]
fn uri_with_path(base: &str, path: &str) -> (r: Option<String>)
    ensures
        r matches Some(u) ==> uri_with_path_of(base@, path@) == Some(u@),
        r is None <==> uri_with_path_of(base@, path@) is None,
{
    let mut parts = base.parse::<http::Uri>().ok()?.into_parts();
    parts.path_and_query = Some(path.parse::<http::uri::PathAndQuery>().ok()?);
    http::Uri::from_parts(parts).ok().map(|u| u.to_string())
}

/// The URI of a mod's manifest under the service root `root`.
pub fn manifest_uri(root: &str, code: &str) -> (r: Result<String, Error>)
    ensures
        uri_path_of(root@) is None ==> r matches Err(Error::InvalidUri(_)),
        uri_path_of(root@) matches Some(p) ==> match uri_with_path_of(
            root@,
            manifest_path_of(p, code@),
        ) {
            Some(u) => r matches Ok(x) && x@ == u,
            None => r matches Err(Error::InvalidUri(_)),
        },
{
    match uri_path(root) {
        None => Err(Error::InvalidUri(String::from_str("service root is not a URI"))),
        Some(p) => {
            let path = manifest_path(p.as_str(), code);
            match uri_with_path(root, path.as_str()) {
                Some(u) => Ok(u),
                None => Err(Error::InvalidUri(String::from_str("manifest URI is refused"))),
            }
        },
    }
}

/// The file to download for a mod: the first one its manifest lists.
pub fn current_file(m: &Mod) -> (r: Result<ModFile, Error>)
    ensures
        r is Ok <==> m.mod_files@.len() > 0,
        r matches Ok(f) ==> f == m.mod_files@[0],
        r matches Err(e) ==> e is UnknownError,
{
    if m.mod_files.len() == 0 {
        Err(Error::UnknownError(String::from_str("mod had 0 files, expected at least 1")))
    } else {
        Ok(m.mod_files[0].duplicate())
    }
}

/// Where the package of `f` is written inside the staging directory `dir`.
pub fn main_file_path(dir: &str, f: &ModFile) -> (r: String)
    ensures
        r@ == joined_path(dir@, f.filename@),
{
    join_path(dir, f.filename.as_str())
}

/// The path component of a URI, as `http::Uri` parses it; `None` where the text
/// is not a URI.
pub uninterp spec fn uri_path_of(s: Seq<char>) -> Option<Seq<char>>;

/// Relies on `http::Uri`'s `FromStr` and `Uri::path`: the path of a parsed URI,
/// which depends on the text alone.
#[verifier::external_body]
fn uri_path(s: &str) -> (r: Option<String>)
    ensures
        r matches Some(p) ==> uri_path_of(s@) == Some(p@),
        r is None <==> uri_path_of(s@) is None,
{
    s.parse::<http::Uri>().ok().map(|u| u.path().to_string())
}

/// The logo's file name, from the path of a URI that has already been parsed.
pub fn logo_name_from_path(path: Option<String>) -> (r: Result<String, Error>)
    ensures
        path is None ==> r matches Err(Error::InvalidUri(_)),
        path matches Some(p) ==> match file_name_of(p@) {
            Some(n) => r matches Ok(x) && x@ == n,
            None => r matches Err(Error::UnknownError(_)),
        },
{
    match path {
        None => Err(Error::InvalidUri(String::from_str("logo URL is not a URI"))),
        Some(p) => match file_name(p.as_str()) {
            Some(n) => Ok(n),
            None => Err(Error::UnknownError(String::from_str("logo URL has no file name"))),
        },
    }
}

/// The file name under which a logo fetched from `url` is stored.
pub fn logo_file_name(url: &str) -> (r: Result<String, Error>)
    ensures
        uri_path_of(url@) is None ==> r matches Err(Error::InvalidUri(_)),
        uri_path_of(url@) matches Some(p) ==> match file_name_of(p) {
            Some(n) => r matches Ok(x) && x@ == n,
            None => r matches Err(Error::UnknownError(_)),
        },
{
    logo_name_from_path(uri_path(url))
}

/// Where the logo of a manifest is written inside `dir`: `None` when the
/// manifest has no logo, so that nothing is fetched.
pub fn logo_file_path(dir: &str, logo: &Option<String>) -> (r: Result<Option<String>, Error>)
    ensures
        logo is None ==> r == Ok::<Option<String>, Error>(None),
        logo matches Some(url) ==> match uri_path_of(url@) {
            None => r matches Err(Error::InvalidUri(_)),
            Some(p) => match file_name_of(p) {
                Some(n) => r matches Ok(Some(x)) && x@ == joined_path(dir@, n),
                None => r matches Err(Error::UnknownError(_)),
            },
        },
{
    match logo {
        None => Ok(None),
        Some(url) => match logo_file_name(url.as_str()) {
            Ok(n) => Ok(Some(join_path(dir, n.as_str()))),
            Err(e) => Err(e),
        },
    }
}

} // verus!
