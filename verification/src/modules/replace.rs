//! Replacing every match of a regular expression in a file's content.
use vstd::prelude::*;
use crate::patterns::{compile_pattern, pattern_replace_all, regex_compile_error, regex_replaced};
use super::{ModuleClassification, ModuleError, ModuleResult};

verus! {

/// What a substitution did to a file's content.
#[derive(Debug, Clone)]
pub struct Substitution {
    /// The new content.
    pub content: String,
    /// Whether it differs from the old content.
    pub changed: bool,
}

/// Module for replacing text in files.
pub struct ReplaceModule;

impl ReplaceModule {
    /// The module's name.
    pub fn name(&self) -> (r: &'static str)
        ensures
            r@ == "replace"@,
    {
        "replace"
    }

    /// What the module does.
    pub fn description(&self) -> (r: &'static str)
        ensures
            r@ == "Replace all instances of a pattern in a file"@,
    {
        "Replace all instances of a pattern in a file"
    }

    /// File edits are done by the transport itself.
    pub fn classification(&self) -> (r: ModuleClassification)
        ensures
            r == ModuleClassification::NativeTransport,
    {
        ModuleClassification::NativeTransport
    }

    /// The parameters the module cannot run without.
    pub fn required_params(&self) -> (r: &'static [&'static str])
        ensures
            r@.len() == 2,
            r@[0]@ == "path"@,
            r@[1]@ == "regexp"@,
    {
        &["path", "regexp"]
    }

    /// Replaces every match of `pattern` in `content`, and says whether that
    /// changed anything; a pattern that does not compile is refused.
    pub fn substitute(content: &str, pattern: &str, replacement: &str) -> (r: ModuleResult<Substitution>)
        ensures
            match regex_compile_error(pattern@) {
                Some(m) => r matches Err(ModuleError::InvalidParameter(e)) && e@ == "Invalid regexp: "@ + m,
                None => r matches Ok(s) && s.content@ == regex_replaced(pattern@, content@, replacement@)
                    && s.changed == (s.content@ != content@),
            },
    {
        match compile_pattern(pattern) {
            Err(m) => Err(ModuleError::InvalidParameter(crate::text::concat2("Invalid regexp: ", m.as_str()))),
            Ok(re) => {
                let replaced = pattern_replace_all(&re, content, replacement);
                let changed = !crate::text::str_equal(replaced.as_str(), content);
                Ok(Substitution { content: replaced, changed })
            },
        }
    }
}

impl ReplaceModule {
    /// Checks that the expression compiles.
    pub fn validate_params(regexp: &str) -> (r: ModuleResult<()>)
        ensures
            match regex_compile_error(regexp@) {
                Some(m) => r matches Err(ModuleError::InvalidParameter(e)) && e@ == "Invalid regexp: "@ + m,
                None => r is Ok,
            },
    {
        match compile_pattern(regexp) {
            Err(m) => Err(ModuleError::InvalidParameter(crate::text::concat2("Invalid regexp: ", m.as_str()))),
            Ok(_) => Ok(()),
        }
    }
}

} // verus!
