//! The system information banner: package, version line, commit and build
//! profile.  The commit hash and build-time tags come from the build
//! environment and are handed in as plain strings.

use vstd::prelude::*;

verus! {

/// The version line: a release tag wins; otherwise the development branch
/// position when known, or plain "development".
pub open spec fn version_line(
    release: Option<Seq<char>>,
    latest: Seq<char>,
    ahead: Seq<char>,
) -> Seq<char> {
    if release is Some && release.unwrap().len() > 0 {
        "release "@ + release.unwrap()
    } else if latest.len() > 0 && ahead.len() > 0 {
        "development branch "@ + ahead + " commits ahead of "@ + latest
    } else if latest.len() > 0 {
        "development branch ahead of "@ + latest
    } else {
        "development"@
    }
}

/// The full banner text.
pub open spec fn system_info_text(
    package: Seq<char>,
    commit: Seq<char>,
    debug_build: bool,
    release: Option<Seq<char>>,
    latest: Seq<char>,
    ahead: Seq<char>,
) -> Seq<char> {
    package + " - "@ + version_line(release, latest, ahead) + "\nCommit: "@ + commit + "\n"@ + (
    if debug_build {
        "Dev"@
    } else {
        "Release"@
    }) + " build"@
}

/// Compose the system information banner from the build facts.
pub fn get_system_info(
    package: &str,
    commit: &str,
    debug_build: bool,
    release_version: Option<&str>,
    latest_tag: &str,
    commits_ahead: &str,
) -> (r: String)
    ensures
        r@ == system_info_text(
            package@,
            commit@,
            debug_build,
            match release_version {
                Some(t) => Some(t@),
                None => None,
            },
            latest_tag@,
            commits_ahead@,
        ),
{
    let mut s = String::new();
    s.append(package);
    s.append(" - ");
    let has_release = match release_version {
        Some(tag) => tag.unicode_len() > 0,
        None => false,
    };
    if has_release {
        s.append("release ");
        match release_version {
            Some(tag) => {
                s.append(tag);
            },
            None => {},
        }
    } else if latest_tag.unicode_len() > 0 && commits_ahead.unicode_len() > 0 {
        s.append("development branch ");
        s.append(commits_ahead);
        s.append(" commits ahead of ");
        s.append(latest_tag);
    } else if latest_tag.unicode_len() > 0 {
        s.append("development branch ahead of ");
        s.append(latest_tag);
    } else {
        s.append("development");
    }
    s.append("\nCommit: ");
    s.append(commit);
    s.append("\n");
    if debug_build {
        s.append("Dev");
    } else {
        s.append("Release");
    }
    s.append(" build");
    s
}

} // verus!
