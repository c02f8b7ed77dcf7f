//! Server providers: lists of servers fetched from a URL and kept in the
//! data directory.
use vstd::prelude::*;

verus! {

/// The formats of server lists.
#[derive(Debug, Clone, Copy, PartialEq, Eq, Structural)]
pub enum ProviderFormat {
    Ssr,
}

/// How often a server list is fetched again, in seconds: once an hour.
pub fn default_interval() -> (r: u64)
    ensures
        r == 3600,
{
    60 * 60
}

/// The file, in the data directory, that keeps the list of provider `tag`.
pub fn list_file_name(tag: &str) -> (r: String)
    ensures
        r@ == tag@ + ".lst"@,
{
    let mut r = tag.to_owned();
    r.append(".lst");
    r
}

} // verus!
