//! Project templates of the blank-directory bootstrap.

use crate::diagnostic::{same_text, static_message, Diagnostic, DiagnosticClass};
use crate::digest::ObjectDigest;
use crate::kernel::{PackageId, RevisionId};
use vstd::prelude::*;

verus! {

/// The version of the bootstrap contract.
pub const BOOTSTRAP_CONTRACT_VERSION: u16 = 2;

/// The template a new project starts from.
#[derive(Clone, Copy, Debug, PartialEq, Eq, Structural)]
pub enum ProjectTemplate {
    Minimal,
    Command,
}

impl ProjectTemplate {
    pub open spec fn spec_name(self) -> Seq<char> {
        match self {
            ProjectTemplate::Minimal => "minimal"@,
            ProjectTemplate::Command => "command"@,
        }
    }

    /// The template named `value`, or a source diagnostic naming the accepted templates.
    pub fn parse(value: &str) -> (r: Result<Self, Diagnostic>)
        ensures
            r matches Ok(template) ==> template.spec_name() == value@,
            r matches Err(d) ==> d.class == DiagnosticClass::Source && d.code@ == "bootstrap_template"@
                && forall|template: ProjectTemplate| template.spec_name() != value@,
    {
        if same_text(value, ProjectTemplate::Minimal.name()) {
            Ok(ProjectTemplate::Minimal)
        } else if same_text(value, ProjectTemplate::Command.name()) {
            Ok(ProjectTemplate::Command)
        } else {
            Err(Diagnostic::new(
                DiagnosticClass::Source,
                "bootstrap_template",
                static_message("unknown project template; expected minimal or command"),
            ))
        }
    }

    /// The template's name.
    pub fn name(self) -> (r: &'static str)
        ensures
            r@ == self.spec_name(),
    {
        match self {
            ProjectTemplate::Minimal => "minimal",
            ProjectTemplate::Command => "command",
        }
    }
}

/// What identifies the builtin standard package this executable carries.
#[derive(Clone, Debug)]
pub struct BuiltinPackageInfo {
    pub contract_version: u16,
    pub graph_contract: &'static str,
    pub package_id: PackageId,
    pub semantic_revision: RevisionId,
    pub artifact: ObjectDigest,
    pub bundle_digest: String,
    pub bytes: usize,
}

} // verus!
