//! Resolving an FMU's resource location. The environment hands the
//! instantiation a URI; the url crate turns it into a local filesystem
//! path, and the descriptor file is expected directly inside that
//! directory.

use crate::config::{descriptor_file_name, join_path};
use vstd::prelude::*;
use vstd::string::StringSliceAdditionalSpecFns;

verus! {

/// The local path a resource-location URI resolves to, if it resolves at
/// all: the result of parsing the URI and converting it to a filesystem
/// path on this target. It depends on the URI alone; stating its value
/// would mean writing out the URI grammar, so it is left a name that the
/// trusted wrapper below pins to the url crate's answer.
pub uninterp spec fn resource_path_of(uri: Seq<char>) -> Option<Seq<u8>>;

/// Relies on `url::Url::parse` to parse the resource-location URI and on
/// `url::Url::to_file_path` to turn a `file` URI into a local path. Either
/// step may reject the input — an unparsable URI, a foreign host, an
/// undecodable path — and what comes back then is nothing. The answer is a
/// function of the URI alone, named `resource_path_of`; on this target a
/// path that does come back is absolute: nonempty, starting with the
/// separator.
#[verifier::external_body]
fn resource_uri_to_path(uri: &str) -> (r: Option<Vec<u8>>)
    ensures
        (match r {
            Some(p) => resource_path_of(uri@) == Some(p@) && p@.len() > 0 && p@[0] == 47,
            None => resource_path_of(uri@) is None,
        }),
{
    let parsed = match url::Url::parse(uri) {
        Ok(u) => u,
        Err(_) => return None,
    };
    let path = match parsed.to_file_path() {
        Ok(p) => p,
        Err(_) => return None,
    };
    match path.into_os_string().into_string() {
        Ok(s) => Some(s.into_bytes()),
        Err(_) => None,
    }
}

/// Resolves a resource location to the resource directory and the
/// descriptor file inside it. Exactly when the URI names a local directory
/// — when `resource_path_of` holds a path — the result is that directory
/// and the descriptor's path: the directory, the separator, the descriptor
/// file's name.
pub fn locate_descriptor(resource_location: &str) -> (r: Option<(Vec<u8>, Vec<u8>)>)
    ensures
        (match r {
            Some((dir, path)) => {
                &&& resource_path_of(resource_location@) == Some(dir@)
                &&& dir@.len() > 0
                &&& dir@[0] == 47
                &&& path@ == dir@ + seq![47u8] + "slave_configuration.json".spec_bytes()
            },
            None => resource_path_of(resource_location@) is None,
        }),
{
    match resource_uri_to_path(resource_location) {
        Some(dir) => {
            let name = descriptor_file_name();
            let path = join_path(&dir, &name);
            Some((dir, path))
        },
        None => None,
    }
}

} // verus!
