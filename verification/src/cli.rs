//! The choices of the command line that the library acts on: the
//! subcommands, the profile and the output format. Parsing the arguments is
//! left to the caller.

use vstd::prelude::*;
use crate::rules::Profile;

verus! {

/// The subcommands.
pub enum Commands {
    /// Validate all .deslop-rules files.
    CheckRules,
    /// Install a pre-commit hook to block commits with slop.
    InstallHook,
    /// Print every active rule with pattern, fix behavior, confidence, and example.
    ExplainRules,
    /// Start a Language Server Protocol daemon (JSON-RPC over stdio).
    Lsp {
        /// Log level: error, warn, info, debug, trace.
        log_level: String,
    },
}

/// The rule sets a run can choose.
#[derive(Debug, Clone, Copy, PartialEq, Eq, Structural)]
pub enum ProfileArg {
    Conservative,
    Prose,
    Code,
    Aggressive,
    RustPack,
    PythonPack,
}

/// The output formats.
#[derive(Debug, Clone, Copy, PartialEq, Eq, Structural)]
pub enum FormatArg {
    Human,
    Json,
}

/// The profile a choice names.
pub open spec fn profile_of(p: ProfileArg) -> Profile {
    match p {
        ProfileArg::Conservative => Profile::Conservative,
        ProfileArg::Prose => Profile::Prose,
        ProfileArg::Code => Profile::Code,
        ProfileArg::Aggressive => Profile::Aggressive,
        ProfileArg::RustPack => Profile::RustPack,
        ProfileArg::PythonPack => Profile::PythonPack,
    }
}

impl From<ProfileArg> for Profile {
    fn from(p: ProfileArg) -> (r: Profile) {
        match p {
            ProfileArg::Conservative => Profile::Conservative,
            ProfileArg::Prose => Profile::Prose,
            ProfileArg::Code => Profile::Code,
            ProfileArg::Aggressive => Profile::Aggressive,
            ProfileArg::RustPack => Profile::RustPack,
            ProfileArg::PythonPack => Profile::PythonPack,
        }
    }
}

impl vstd::std_specs::convert::FromSpecImpl<ProfileArg> for Profile {
    open spec fn obeys_from_spec() -> bool {
        true
    }

    open spec fn from_spec(p: ProfileArg) -> Profile {
        profile_of(p)
    }
}

} // verus!
