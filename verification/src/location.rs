//! Where a store is: the backend that a store URL names.

use crate::dir::store::STORE_DIR_NAME;
use crate::sysexits::Sysexits;
use vstd::prelude::*;

verus! {

/// The backend that a URL names, with what is needed to open it.
#[derive(Debug)]
pub enum StoreLocation {
    /// The directory store in the directory with this path.
    Directory(String),
    /// A new ephemeral store.
    Memory,
}

/// Why a URL names no store.
#[derive(Clone, Copy, Debug, PartialEq, Eq, Structural)]
pub enum StoreUrlError {
    /// The text is no URL.
    InvalidUrl,
    /// The URL is a `file` URL that stands for no local path.
    InvalidPath,
    /// The URL's scheme names no backend.
    UnsupportedScheme,
}

impl StoreUrlError {
    /// The exit that the error ends a command with: the input was bad data.
    pub fn exit(&self) -> (exit: Sysexits)
        ensures
            exit == Sysexits::EX_DATAERR,
    {
        Sysexits::EX_DATAERR
    }
}

/// The scheme of the URL that `url::Url::parse` makes of `text`, or `None`
/// where it makes none.
pub uninterp spec fn url_scheme_of(text: Seq<char>) -> Option<Seq<char>>;

/// Calls `url::Url::parse` and, on the URL, `scheme` and `to_file_path`.
/// Trusted: the first part, or the absence of both where the text does not
/// parse, is what `url_scheme_of` names. Nothing is claimed of the path: which
/// paths a URL stands for differs between platforms.
#[verifier::external_body]
fn url_parts(text: &str) -> (parts: Option<(String, Option<String>)>)
    ensures
        match parts {
            Some(found) => url_scheme_of(text@) == Some(found.0@),
            None => url_scheme_of(text@) is None,
        },
{
    let url = url::Url::parse(text).ok()?;
    let path = match url.to_file_path() {
        Ok(path) => path.into_os_string().into_string().ok(),
        Err(_) => None,
    };
    Some((url.scheme().to_owned(), path))
}

/// The backend for a URL with this scheme: `file` is the directory store at
/// the URL's path, which must be there, `memory` is an ephemeral store, and
/// no other scheme names a backend.
pub fn location_for(scheme: &str, file_path: Option<String>) -> (r: Result<
    StoreLocation,
    StoreUrlError,
>)
    ensures
        scheme@ == "file"@ ==> match file_path {
            Some(path) => r == Ok::<StoreLocation, StoreUrlError>(StoreLocation::Directory(path)),
            None => r == Err::<StoreLocation, StoreUrlError>(StoreUrlError::InvalidPath),
        },
        scheme@ == "memory"@ ==> r == Ok::<StoreLocation, StoreUrlError>(StoreLocation::Memory),
        scheme@ != "file"@ && scheme@ != "memory"@ ==> r == Err::<StoreLocation, StoreUrlError>(
            StoreUrlError::UnsupportedScheme,
        ),
{
    proof {
        reveal_strlit("file");
        reveal_strlit("memory");
        assert("file"@.len() == 4 && "memory"@.len() == 6);
    }
    let name = scheme.to_owned();
    if name == "file".to_owned() {
        match file_path {
            Some(path) => Ok(StoreLocation::Directory(path)),
            None => Err(StoreUrlError::InvalidPath),
        }
    } else if name == "memory".to_owned() {
        Ok(StoreLocation::Memory)
    } else {
        Err(StoreUrlError::UnsupportedScheme)
    }
}

/// The backend that `url` names. Text that is no URL, a scheme that names no
/// backend and a `file` URL without a local path are refused.
pub fn locate_store_from_url(url: &str) -> (r: Result<StoreLocation, StoreUrlError>)
    ensures
        match url_scheme_of(url@) {
            None => r == Err::<StoreLocation, StoreUrlError>(StoreUrlError::InvalidUrl),
            Some(scheme) => if scheme == "file"@ {
                r matches Ok(StoreLocation::Directory(_)) || r == Err::<
                    StoreLocation,
                    StoreUrlError,
                >(StoreUrlError::InvalidPath)
            } else if scheme == "memory"@ {
                r == Ok::<StoreLocation, StoreUrlError>(StoreLocation::Memory)
            } else {
                r == Err::<StoreLocation, StoreUrlError>(StoreUrlError::UnsupportedScheme)
            },
        },
{
    proof {
        reveal_strlit("file");
        reveal_strlit("memory");
        assert("file"@.len() == 4 && "memory"@.len() == 6);
    }
    match url_parts(url) {
        None => Err(StoreUrlError::InvalidUrl),
        Some((scheme, file_path)) => location_for(scheme.as_str(), file_path),
    }
}

/// The backend to use where the environment may name one: with no URL, or
/// an empty one, the directory store in `.blobary` below the working
/// directory.
pub fn locate_store(url: Option<&str>) -> (r: Result<StoreLocation, StoreUrlError>)
    ensures
        match url {
            None => r matches Ok(StoreLocation::Directory(path)) && path@ == STORE_DIR_NAME@,
            Some(text) => if text@.len() == 0 {
                r matches Ok(StoreLocation::Directory(path)) && path@ == STORE_DIR_NAME@
            } else {
                match url_scheme_of(text@) {
                    None => r == Err::<StoreLocation, StoreUrlError>(StoreUrlError::InvalidUrl),
                    Some(scheme) => if scheme == "file"@ {
                        r matches Ok(StoreLocation::Directory(_)) || r == Err::<
                            StoreLocation,
                            StoreUrlError,
                        >(StoreUrlError::InvalidPath)
                    } else if scheme == "memory"@ {
                        r == Ok::<StoreLocation, StoreUrlError>(StoreLocation::Memory)
                    } else {
                        r == Err::<StoreLocation, StoreUrlError>(StoreUrlError::UnsupportedScheme)
                    },
                }
            },
        },
{
    match url {
        None => Ok(StoreLocation::Directory(STORE_DIR_NAME.to_owned())),
        Some(text) => {
            if text.is_empty() {
                Ok(StoreLocation::Directory(STORE_DIR_NAME.to_owned()))
            } else {
                locate_store_from_url(text)
            }
        },
    }
}

} // verus!
