//! What `salmon-watch --version` prints.

use vstd::prelude::*;
use vstd::string::*;

use crate::text::{joined, Text};

verus! {

/// Which program this is and how it was built.
#[derive(Debug, PartialEq, Eq)]
pub struct BuildIdentity {
    pub version: String,
    pub commit: String,
    pub date: String,
    pub built_by: String,
    pub target: String,
}

/// The description of a build.
pub open spec fn description(
    version: Text,
    commit: Text,
    date: Text,
    built_by: Text,
    target: Text,
) -> Text {
    "Salmon Watch "@ + version + "\nCommit: "@ + commit + "\nBuild time: "@ + date
        + "\nBuilt by: "@ + built_by + "\nTarget: "@ + target
        + "\n\nWritten by Dmitry Frank (https://dmitryfrank.com)\n"@
}

/// Describes a build.
pub fn format_description(
    version: &str,
    commit: &str,
    date: &str,
    built_by: &str,
    target: &str,
) -> (text: String)
    ensures
        text@ == description(version@, commit@, date@, built_by@, target@),
{
    joined("Salmon Watch ", version).concat("\nCommit: ").concat(commit).concat(
        "\nBuild time: ",
    ).concat(date).concat("\nBuilt by: ").concat(built_by).concat("\nTarget: ").concat(
        target,
    ).concat("\n\nWritten by Dmitry Frank (https://dmitryfrank.com)\n")
}

/// Describes the build with an identity.
pub fn full_description(identity: &BuildIdentity) -> (text: String)
    ensures
        text@ == description(
            identity.version@,
            identity.commit@,
            identity.date@,
            identity.built_by@,
            identity.target@,
        ),
{
    format_description(
        identity.version.as_str(),
        identity.commit.as_str(),
        identity.date.as_str(),
        identity.built_by.as_str(),
        identity.target.as_str(),
    )
}

} // verus!
