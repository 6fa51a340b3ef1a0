use vstd::prelude::*;

pub mod text;
pub mod names;
pub mod numbers;
pub mod patterns;
pub mod assoc;
pub mod metrics;
pub mod modules;
pub mod task_files;
pub mod inventory;
pub mod lockfile;
pub mod datetime;

verus! {

/// The version of this library.
pub fn version() -> (v: &'static str)
    ensures
        v@ == "0.1.0"@,
{
    "0.1.0"
}

/// Version information of a build.
#[derive(Debug, Clone)]
pub struct VersionInfo {
    /// Semantic version.
    pub version: &'static str,
    /// Minimum Rust version required.
    pub rust_version: &'static str,
    /// Target architecture of the build.
    pub target: &'static str,
    /// Build profile, `debug` or `release`.
    pub profile: &'static str,
}

impl VersionInfo {
    /// The version line: `rustible <version> (<target>, <profile>)`.
    pub fn describe(&self) -> (r: String)
        ensures
            r@ == "rustible "@ + self.version@ + " ("@ + self.target@ + ", "@ + self.profile@ + ")"@,
    {
        let a = text::concat3("rustible ", self.version, " (");
        let b = text::concat3(a.as_str(), self.target, ", ");
        text::concat3(b.as_str(), self.profile, ")")
    }
}

} // verus!
