//! The two kinds of address that a run is given.
//!
//! A local directory is `file://<path>`. A remote folder is
//! `adrive://<drive>/<folder path>`: the host names the drive and the path
//! the folder. An address without a host may name the drive as the first
//! segment of its path instead: `adrive:///<drive>/<folder path>`. Either
//! way the folder path is percent-decoded.

use vstd::prelude::*;
use vstd::string::*;

verus! {

/// Why an address is refused.
#[derive(Debug, Clone, Copy, PartialEq, Eq, Structural)]
pub enum UriError {
    /// The text is not an absolute address.
    Invalid,
    /// A local directory was expected: the scheme must be `file`.
    NotFile,
    /// A remote folder was expected: the scheme must be `adrive`.
    NotAdrive,
    /// The path does not name a drive and then a folder.
    MissingFolder,
    /// The folder path does not percent-decode to UTF-8.
    BadEscape,
}

/// The scheme, the host and the path of an address.
#[derive(Debug)]
pub struct ParsedUri {
    pub scheme: String,
    /// The host, where the address has one.
    pub host: Option<String>,
    pub path: String,
}

/// The parts of an address as plain values.
pub struct UriParts {
    pub scheme: Seq<char>,
    pub host: Option<Seq<char>>,
    pub path: Seq<char>,
}

impl View for ParsedUri {
    type V = UriParts;

    open spec fn view(&self) -> UriParts {
        UriParts {
            scheme: self.scheme@,
            host: match self.host {
                Some(h) => Some(h@),
                None => None,
            },
            path: self.path@,
        }
    }
}

/// A folder on a drive.
#[derive(Debug)]
pub struct RemoteTarget {
    pub drive_id: String,
    pub folder_path: String,
}

/// The lower-cased scheme, the host if there is one, and the
/// percent-encoded path of an absolute address, or `None` where the text is
/// not one.
pub uninterp spec fn url_parts(uri: Seq<char>) -> Option<UriParts>;

/// The text with its percent escapes replaced by the bytes they stand for,
/// or `None` where those bytes are not UTF-8.
pub uninterp spec fn percent_decoded(text: Seq<char>) -> Option<Seq<char>>;

/// Parses with `url::Url::parse` and picks `scheme()`, `host_str()` and
/// `path()`. The outcome is a function of the text alone.
#[verifier::external_body]
fn split_url(uri: &str) -> (parts: Option<ParsedUri>)
    ensures
        parts is Some <==> url_parts(uri@) is Some,
        parts matches Some(p) ==> url_parts(uri@) == Some(p@),
{
    let url = url::Url::parse(uri).ok()?;
    Some(
        ParsedUri {
            scheme: url.scheme().to_string(),
            host: url.host_str().map(str::to_string),
            path: url.path().to_string(),
        },
    )
}

/// Decodes with `urlencoding::decode`. The outcome is a function of the
/// text alone.
#[verifier::external_body]
fn percent_decode(text: &str) -> (decoded: Option<String>)
    ensures
        decoded is Some <==> percent_decoded(text@) is Some,
        decoded matches Some(d) ==> percent_decoded(text@) == Some(d@),
{
    match urlencoding::decode(text) {
        Ok(decoded) => Some(decoded.into_owned()),
        Err(_) => None,
    }
}

/// The index of the first `/` at or after `from`, or the length of the
/// path where there is none.
pub open spec fn first_slash(path: Seq<char>, from: int) -> int
    decreases path.len() - from,
{
    if from < 0 || from >= path.len() {
        path.len() as int
    } else if path[from] == '/' {
        from
    } else {
        first_slash(path, from + 1)
    }
}

/// What an address gives as a local directory.
pub open spec fn local_path_of(scheme: Seq<char>, path: Seq<char>) -> Result<Seq<char>, UriError> {
    if scheme == "file"@ {
        Ok(path)
    } else {
        Err(UriError::NotFile)
    }
}

/// What an address gives as a remote folder. Where it has a host, the
/// host is the drive and the whole path is the folder path. Where it has
/// none, the drive is what stands between the first two slashes of the path
/// and the folder path is the rest, from the second slash on. The folder
/// path starts with a slash and is percent-decoded; an empty path is
/// refused.
pub open spec fn remote_target_of(uri: UriParts) -> Result<(Seq<char>, Seq<char>), UriError> {
    let path = uri.path;
    let k = first_slash(path, 1);
    if uri.scheme != "adrive"@ {
        Err(UriError::NotAdrive)
    } else if path.len() == 0 || path[0] != '/' {
        Err(UriError::MissingFolder)
    } else if uri.host is Some && uri.host->0.len() > 0 {
        match percent_decoded(path) {
            Some(folder) => Ok((uri.host->0, folder)),
            None => Err(UriError::BadEscape),
        }
    } else if k >= path.len() {
        Err(UriError::MissingFolder)
    } else {
        match percent_decoded(path.skip(k)) {
            Some(folder) => Ok((path.subrange(1, k), folder)),
            None => Err(UriError::BadEscape),
        }
    }
}

/// Splits an address into its scheme, its host and its path.
pub fn parse_uri(uri: &str) -> (r: Result<ParsedUri, UriError>)
    ensures
        r is Ok <==> url_parts(uri@) is Some,
        r is Err ==> r == Err::<ParsedUri, UriError>(UriError::Invalid),
        r matches Ok(p) ==> url_parts(uri@) == Some(p@),
{
    match split_url(uri) {
        Some(parts) => Ok(parts),
        None => Err(UriError::Invalid),
    }
}

/// Reads an address as a local directory.
pub fn local_path(uri: &ParsedUri) -> (r: Result<String, UriError>)
    ensures
        match r {
            Ok(path) => local_path_of(uri.scheme@, uri.path@) == Ok::<Seq<char>, UriError>(path@),
            Err(e) => local_path_of(uri.scheme@, uri.path@) == Err::<Seq<char>, UriError>(e),
        },
{
    let file = String::from_str("file");
    if uri.scheme == file {
        Ok(uri.path.clone())
    } else {
        Err(UriError::NotFile)
    }
}

/// Finds the first `/` of `path` at or after `from`.
fn find_slash(path: &str, from: usize) -> (k: usize)
    requires
        from <= path@.len(),
    ensures
        k == first_slash(path@, from as int),
        from <= k <= path@.len(),
{
    let n = path.unicode_len();
    let mut k: usize = from;
    while k < n
        invariant
            from <= k <= n,
            n == path@.len(),
            first_slash(path@, from as int) == first_slash(path@, k as int),
        decreases n - k,
    {
        if path.get_char(k) == '/' {
            return k;
        }
        k = k + 1;
    }
    k
}

/// Reads an address as a folder on a drive.
pub fn remote_target(uri: &ParsedUri) -> (r: Result<RemoteTarget, UriError>)
    ensures
        match r {
            Ok(t) => remote_target_of(uri@) == Ok::<(Seq<char>, Seq<char>), UriError>(
                (t.drive_id@, t.folder_path@),
            ),
            Err(e) => remote_target_of(uri@) == Err::<(Seq<char>, Seq<char>), UriError>(e),
        },
{
    let adrive = String::from_str("adrive");
    if uri.scheme != adrive {
        return Err(UriError::NotAdrive);
    }
    let path = uri.path.as_str();
    let n = path.unicode_len();
    if n == 0 || path.get_char(0) != '/' {
        return Err(UriError::MissingFolder);
    }
    match &uri.host {
        Some(host) => {
            if !host.as_str().is_empty() {
                return match percent_decode(path) {
                    Some(folder_path) => Ok(RemoteTarget { drive_id: host.clone(), folder_path }),
                    None => Err(UriError::BadEscape),
                };
            }
        },
        None => {},
    }
    let k = find_slash(path, 1);
    if k >= n {
        return Err(UriError::MissingFolder);
    }
    let drive_id = path.substring_char(1, k).to_owned();
    let encoded = path.substring_char(k, n);
    assert(encoded@ =~= path@.skip(k as int));
    match percent_decode(encoded) {
        Some(folder_path) => Ok(RemoteTarget { drive_id, folder_path }),
        None => Err(UriError::BadEscape),
    }
}

} // verus!
