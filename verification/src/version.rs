//! The version of the program, in a short and in a long form.

use vstd::prelude::*;

verus! {

/// The version of the program.
pub const VERSION: &'static str = "0.1.0";

/// What stands for a fact about the build that is not known.
pub const UNKNOWN: &'static str = "unknown";

/// What is known about a build.
#[derive(Debug)]
pub struct BuildInfo {
    /// The short commit, with a suffix where there were changes on top of it.
    pub git_commit: String,
    pub target: String,
    pub profile: String,
    pub rustc: String,
}

/// A fact about the build, or the word for one that is not known.
fn fact(value: Option<&str>) -> (text: String)
    ensures
        text@ == match value {
            Some(v) => v@,
            None => UNKNOWN@,
        },
{
    match value {
        Some(v) => v.to_string(),
        None => UNKNOWN.to_string(),
    }
}

impl BuildInfo {
    /// What is known, with a word for the rest.
    pub fn new(
        git_commit: Option<&str>,
        target: Option<&str>,
        profile: Option<&str>,
        rustc: Option<&str>,
    ) -> (info: Self)
        ensures
            info.git_commit@ == match git_commit {
                Some(v) => v@,
                None => UNKNOWN@,
            },
            info.target@ == match target {
                Some(v) => v@,
                None => UNKNOWN@,
            },
            info.profile@ == match profile {
                Some(v) => v@,
                None => UNKNOWN@,
            },
            info.rustc@ == match rustc {
                Some(v) => v@,
                None => UNKNOWN@,
            },
    {
        BuildInfo {
            git_commit: fact(git_commit),
            target: fact(target),
            profile: fact(profile),
            rustc: fact(rustc),
        }
    }

    /// The version on one line.
    pub fn short(&self) -> (text: String)
        ensures
            text@ == VERSION@ + " ("@ + self.git_commit@ + seq![' '] + self.profile@ + seq![')'],
    {
        let mut text = VERSION.to_string();
        text.append(" (");
        text.append(self.git_commit.as_str());
        text.push(' ');
        text.append(self.profile.as_str());
        text.push(')');
        assert(text@ =~= VERSION@ + " ("@ + self.git_commit@ + seq![' '] + self.profile@ + seq![
            ')',
        ]);
        text
    }

    /// The version and all about the build, on several lines.
    pub fn long(&self) -> (text: String)
        ensures
            text@ == VERSION@ + "\ncommit:  "@ + self.git_commit@ + "\ntarget:  "@ + self.target@
                + "\nprofile: "@ + self.profile@ + "\nrustc:   "@ + self.rustc@,
    {
        let mut text = VERSION.to_string();
        text.append("\ncommit:  ");
        text.append(self.git_commit.as_str());
        text.append("\ntarget:  ");
        text.append(self.target.as_str());
        text.append("\nprofile: ");
        text.append(self.profile.as_str());
        text.append("\nrustc:   ");
        text.append(self.rustc.as_str());
        text
    }
}

} // verus!
