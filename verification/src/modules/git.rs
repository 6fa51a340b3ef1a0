//! Git repositories: the module's description and its parameters.
use vstd::prelude::*;
use crate::text::copy_str;
use super::{ModuleClassification, ModuleError, ModuleResult};

verus! {

/// Module for git repository management.
pub struct GitModule;

impl GitModule {
    /// The module's name.
    pub fn name(&self) -> (r: &'static str)
        ensures
            r@ == "git"@,
    {
        "git"
    }

    /// What the module does.
    pub fn description(&self) -> (r: &'static str)
        ensures
            r@ == "Manage git repositories - clone, update, and checkout versions"@,
    {
        "Manage git repositories - clone, update, and checkout versions"
    }

    /// Git runs on the target.
    pub fn classification(&self) -> (r: ModuleClassification)
        ensures
            r == ModuleClassification::RemoteCommand,
    {
        ModuleClassification::RemoteCommand
    }

    /// The parameters the module cannot run without.
    pub fn required_params(&self) -> (r: &'static [&'static str])
        ensures
            r@.len() == 2,
            r@[0]@ == "repo"@,
            r@[1]@ == "dest"@,
    {
        &["repo", "dest"]
    }
}

impl GitModule {
    /// Checks the parameters: `repo` and `dest` are required, and a given
    /// `depth` must be positive.
    pub fn validate_params(has_repo: bool, has_dest: bool, depth: Option<u32>) -> (r: ModuleResult<()>)
        ensures
            !has_repo ==> (r matches Err(ModuleError::MissingParameter(m)) && m@ == "repo"@),
            has_repo && !has_dest ==> (r matches Err(ModuleError::MissingParameter(m)) && m@ == "dest"@),
            has_repo && has_dest && depth == Some(0u32) ==> (r matches Err(ModuleError::InvalidParameter(m))
                && m@ == "depth must be greater than 0"@),
            has_repo && has_dest && depth != Some(0u32) ==> r is Ok,
    {
        if !has_repo {
            return Err(ModuleError::MissingParameter(copy_str("repo")));
        }
        if !has_dest {
            return Err(ModuleError::MissingParameter(copy_str("dest")));
        }
        if let Some(d) = depth {
            if d == 0 {
                return Err(ModuleError::InvalidParameter(copy_str("depth must be greater than 0")));
            }
        }
        Ok(())
    }
}

} // verus!
