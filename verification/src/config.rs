use vstd::prelude::*;

verus! {

/// The configuration handed to the filesystem core: the remote server's
/// base URL, the local mount path, and optional credentials. Requests are
/// authenticated iff both credentials are present.
pub struct Config {
    pub server: String,
    pub mountpoint: String,
    pub username: Option<String>,
    pub password: Option<String>,
    pub conf_file: String,
}

} // verus!
