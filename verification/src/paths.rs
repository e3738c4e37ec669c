//! URIs, file names and module names. Paths are `/`-separated byte
//! strings; where one is taken relative to another, the caller has made
//! both canonical: they hold no `.` or `..` parts and no doubled or
//! trailing separator, except for the root itself.

use vstd::prelude::*;
use vstd::utf8::{decode_utf8, encode_utf8, valid_utf8};
use crate::bytes::{as_text, copy_bytes, DOT, SLASH};
use crate::error::ServerError;

verus! {

/// A parsed URL, as the `url` crate holds it.
#[verifier::external_type_specification]
#[verifier::external_body]
pub struct ExUrl(url::Url);

/// The URL that a text stands for, if it is one.
pub uninterp spec fn parsed_url(text: Seq<char>) -> Option<url::Url>;

/// The path of the file that a URL names, if it names one on this machine
/// and the path is text.
pub uninterp spec fn url_file_path(url: url::Url) -> Option<Seq<char>>;

/// Wraps `url::Url::parse`, which reads a URL from its text alone. The
/// contract claims only that the result is a function of the text, under
/// the name `parsed_url`.
#[verifier::external_body]
fn parse_url(text: &str) -> (url: Option<url::Url>)
    ensures
        url == parsed_url(text@),
{
    url::Url::parse(text).ok()
}

/// Wraps `url::Url::to_file_path`, which makes a path from the host and
/// the path segments of the URL alone, by the path rules of the platform
/// the library is built for; it does not look at the file system. A path
/// that is not text counts as none. The contract claims only that the
/// result is a function of the URL, under the name `url_file_path`.
#[verifier::external_body]
fn to_file_path(url: &url::Url) -> (path: Option<String>)
    ensures
        match url_file_path(*url) {
            Some(expected) => path matches Some(path) && path@ == expected,
            None => path is None,
        },
{
    url.to_file_path().ok().and_then(|path| path.into_os_string().into_string().ok())
}

/// The path of the file that a URI names, as UTF-8: none if the URI is
/// not text, is no URL, or names no file.
pub open spec fn spec_uri_file_path(uri: Seq<u8>) -> Option<Seq<u8>> {
    if !valid_utf8(uri) {
        None
    } else {
        match parsed_url(decode_utf8(uri)) {
            None => None,
            Some(url) => match url_file_path(url) {
                Some(path) => Some(encode_utf8(path)),
                None => None,
            },
        }
    }
}

/// The path of the file that a URI names. A URI that names no file is
/// refused.
pub fn uri_file_path(uri: &[u8]) -> (result: Result<Vec<u8>, ServerError>)
    ensures
        match spec_uri_file_path(uri@) {
            Some(expected) => result matches Ok(path) && path@ == expected,
            None => result matches Err(ServerError::InvalidFileName),
        },
{
    let text = match as_text(uri) {
        Some(text) => text,
        None => {
            return Err(ServerError::InvalidFileName);
        },
    };
    let url = match parse_url(text) {
        Some(url) => url,
        None => {
            return Err(ServerError::InvalidFileName);
        },
    };
    match to_file_path(&url) {
        Some(path) => Ok(copy_bytes(path.as_str().as_bytes())),
        None => Err(ServerError::InvalidFileName),
    }
}

/// `path` begins with the bytes of `base`.
pub open spec fn begins_with(path: Seq<u8>, base: Seq<u8>) -> bool {
    base.len() <= path.len() && path.take(base.len() as int) == base
}

/// `path` relative to the directory `base`, if it lies in or is that
/// directory: what follows `base` and the separator behind it.
pub open spec fn spec_strip_prefix(path: Seq<u8>, base: Seq<u8>) -> Option<Seq<u8>> {
    if !begins_with(path, base) {
        None
    } else if base.len() == 0 {
        Some(path)
    } else if base.len() == path.len() {
        Some(Seq::empty())
    } else if base.last() == SLASH {
        Some(path.skip(base.len() as int))
    } else if path[base.len() as int] == SLASH {
        Some(path.skip(base.len() as int + 1))
    } else {
        None
    }
}

/// The name of a file relative to the first of the search paths that it
/// lies in, else relative to the current directory, else as it stands.
pub open spec fn spec_strip_file_prefix(
    paths: Seq<Vec<u8>>,
    name: Seq<u8>,
    current_dir: Seq<u8>,
) -> Seq<u8>
    decreases paths.len(),
{
    if paths.len() == 0 {
        match spec_strip_prefix(name, current_dir) {
            Some(relative) => relative,
            None => name,
        }
    } else {
        match spec_strip_prefix(name, paths.first()@) {
            Some(relative) => relative,
            None => spec_strip_file_prefix(paths.drop_first(), name, current_dir),
        }
    }
}

/// The file that holds a module: a separator for each dot of the module
/// name, and the extension `.glu`.
pub open spec fn spec_module_file_name(module: Seq<u8>) -> Seq<u8> {
    module.map_values(|byte: u8| if byte == DOT { SLASH } else { byte }) + seq![
        DOT,
        0x67u8,
        0x6c,
        0x75,
    ]
}

/// `path` relative to the directory `base`.
pub fn strip_prefix(path: &[u8], base: &[u8]) -> (relative: Option<Vec<u8>>)
    ensures
        match spec_strip_prefix(path@, base@) {
            Some(expected) => relative matches Some(relative) && relative@ == expected,
            None => relative is None,
        },
{
    if base.len() > path.len() {
        return None;
    }
    let mut k: usize = 0;
    while k < base.len()
        invariant
            k <= base.len(),
            base.len() <= path.len(),
            forall|j: int| 0 <= j < k ==> path@[j] == base@[j],
        decreases base.len() - k,
    {
        if path[k] != base[k] {
            assert(path@.take(base.len() as int)[k as int] != base@[k as int]);
            return None;
        }
        k += 1;
    }
    assert(path@.take(base.len() as int) =~= base@);
    let from = if base.len() == 0 || base.len() == path.len() || base[base.len() - 1] == SLASH {
        base.len()
    } else if path[base.len()] == SLASH {
        base.len() + 1
    } else {
        return None;
    };
    assert(path@.skip(path.len() as int) =~= Seq::<u8>::empty());
    assert(path@.skip(0) =~= path@);
    assert(path@.subrange(from as int, path.len() as int) =~= path@.skip(from as int));
    Some(copy_bytes(&path[from..path.len()]))
}

/// The name of the file `name` as the module resolver knows it: relative
/// to the first of the search paths that it lies in, else relative to the
/// current directory, else as it stands.
pub fn strip_file_prefix(paths: &Vec<Vec<u8>>, name: &[u8], current_dir: &[u8]) -> (relative:
    Vec<u8>)
    ensures
        relative@ == spec_strip_file_prefix(paths@, name@, current_dir@),
{
    let mut i: usize = 0;
    assert(paths@.skip(0) =~= paths@);
    while i < paths.len()
        invariant
            i <= paths.len(),
            spec_strip_file_prefix(paths@, name@, current_dir@) == spec_strip_file_prefix(
                paths@.skip(i as int),
                name@,
                current_dir@,
            ),
        decreases paths.len() - i,
    {
        assert(paths@.skip(i as int).drop_first() =~= paths@.skip(i + 1));
        match strip_prefix(name, paths[i].as_slice()) {
            Some(relative) => {
                return relative;
            },
            None => {},
        }
        i += 1;
    }
    match strip_prefix(name, current_dir) {
        Some(relative) => relative,
        None => copy_bytes(name),
    }
}

/// The name of the file that holds the module `module`, relative to a
/// search path.
pub fn module_file_name(module: &[u8]) -> (file: Vec<u8>)
    ensures
        file@ == spec_module_file_name(module@),
{
    let mut file: Vec<u8> = Vec::new();
    let mut i: usize = 0;
    while i < module.len()
        invariant
            i <= module.len(),
            file@ == module@.take(i as int).map_values(
                |byte: u8| if byte == DOT { SLASH } else { byte },
            ),
        decreases module.len() - i,
    {
        let byte = module[i];
        file.push(if byte == DOT { SLASH } else { byte });
        assert(file@ =~= module@.take(i + 1).map_values(
            |byte: u8| if byte == DOT { SLASH } else { byte },
        ));
        i += 1;
    }
    assert(module@.take(i as int) =~= module@);
    file.push(DOT);
    file.push(0x67);
    file.push(0x6c);
    file.push(0x75);
    assert(file@ =~= spec_module_file_name(module@));
    file
}

} // verus!
