//! Configuration checks for the SSH transport that need no runtime.

use vstd::prelude::*;

verus! {

/// Why the SSH service configuration was refused.
#[derive(Clone, Copy, Debug, PartialEq, Eq, Structural)]
pub enum ServerConfigError {
    MissingHostKeyName,
}

/// A character that is neither a separator nor a prefix marker on any
/// platform, nor a dot.
pub open spec fn plain_name_char(c: char) -> bool {
    ('a' <= c <= 'z') || ('A' <= c <= 'Z') || ('0' <= c <= '9') || c == '_' || c == '-'
}

/// A path made of one ordinary component, such as `host_ed25519`.
pub open spec fn is_plain_name(path: Seq<char>) -> bool {
    path.len() >= 1 && forall|i: int| 0 <= i < path.len() ==> plain_name_char(#[trigger] path[i])
}

/// `std::path::Path::file_name`: whether the path ends in a file name. How
/// a path splits into components depends on the platform, so only what the
/// documentation promises everywhere is stated: the path `..` has no file
/// name, and a path that is one ordinary component (no
/// separator, no drive prefix, no dot) is its own file name.
#[verifier::external_body]
fn path_names_file(path: &str) -> (b: bool)
    ensures
        path@ == ".."@ ==> !b,
        is_plain_name(path@) ==> b,
{
    std::path::Path::new(path).file_name().is_some()
}

/// The verdict on a host-key path, given whether it names a file.
pub fn host_key_verdict(names_file: bool) -> (r: Result<(), ServerConfigError>)
    ensures
        r is Ok <==> names_file,
        r matches Err(e) ==> e == ServerConfigError::MissingHostKeyName,
{
    if names_file {
        Ok(())
    } else {
        Err(ServerConfigError::MissingHostKeyName)
    }
}

/// Check that a host-key path names a file.
pub fn validate_host_key_path(path: &str) -> (r: Result<(), ServerConfigError>)
    ensures
        path@ == ".."@ ==> r == Err::<(), ServerConfigError>(ServerConfigError::MissingHostKeyName),
        is_plain_name(path@) ==> r is Ok,
        r matches Err(e) ==> e == ServerConfigError::MissingHostKeyName,
{
    host_key_verdict(path_names_file(path))
}

} // verus!
