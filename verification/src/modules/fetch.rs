//! Fetching files from the target: the module's description and where a
//! fetched file goes.
use vstd::prelude::*;
use super::copy::{file_name, file_name_of};
use super::python::{join_path, joined_path};
use super::ModuleClassification;
use crate::text::{chars_of, copy_str, string_of, trim_start_char, trim_start_matches};

verus! {

/// Module for fetching files from the target.
pub struct FetchModule;

impl FetchModule {
    /// The module's name.
    pub fn name(&self) -> (r: &'static str)
        ensures
            r@ == "fetch"@,
    {
        "fetch"
    }

    /// What the module does.
    pub fn description(&self) -> (r: &'static str)
        ensures
            r@ == "Fetch a file from the target to the control node"@,
    {
        "Fetch a file from the target to the control node"
    }

    /// Transfers are done by the transport itself.
    pub fn classification(&self) -> (r: ModuleClassification)
        ensures
            r == ModuleClassification::NativeTransport,
    {
        ModuleClassification::NativeTransport
    }

    /// The parameters the module cannot run without.
    pub fn required_params(&self) -> (r: &'static [&'static str])
        ensures
            r@.len() == 2,
            r@[0]@ == "src"@,
            r@[1]@ == "dest"@,
    {
        &["src", "dest"]
    }
}

/// Where a fetched file goes. With `flat`, a destination that ends in `/`
/// or is a directory receives the file under its own name (`fetched` when
/// the source has none), and any other destination is the file itself;
/// otherwise the file goes to `<dest>/<host>/<source>`, the source without
/// its leading slashes.
pub open spec fn fetch_destination(
    dest: Seq<char>,
    host: Seq<char>,
    source: Seq<char>,
    flat: bool,
    dest_is_dir: bool,
) -> Seq<char> {
    if flat {
        if (dest.len() > 0 && dest.last() == '/') || dest_is_dir {
            joined_path(
                dest,
                match file_name_of(source) {
                    Some(n) => n,
                    None => "fetched"@,
                },
            )
        } else {
            dest
        }
    } else {
        joined_path(joined_path(dest, host), trim_start_char(source, '/'))
    }
}

impl FetchModule {
    /// Where a fetched file goes; `dest_is_dir` says whether the destination
    /// is an existing directory.
    pub fn destination(dest: &str, host: &str, source: &str, flat: bool, dest_is_dir: bool) -> (r: String)
        ensures
            r@ == fetch_destination(dest@, host@, source@, flat, dest_is_dir),
    {
        if flat {
            let d = chars_of(dest);
            if (d.len() > 0 && d[d.len() - 1] == '/') || dest_is_dir {
                let name = match file_name(source) {
                    Some(n) => n,
                    None => copy_str("fetched"),
                };
                return join_path(dest, name.as_str());
            }
            return copy_str(dest);
        }
        let relative = string_of(&trim_start_matches(&chars_of(source), '/'));
        let at_host = join_path(dest, host);
        join_path(at_host.as_str(), relative.as_str())
    }
}

impl FetchModule {
    /// The SHA-256 digest of fetched bytes, in lowercase hex.
    pub fn checksum(bytes: &[u8]) -> (r: String)
        ensures
            r@ == crate::lockfile::hex_lower(crate::lockfile::sha256_of(bytes@)),
    {
        let digest = crate::lockfile::sha256_digest(bytes);
        crate::lockfile::to_hex(digest.as_slice())
    }
}

} // verus!
