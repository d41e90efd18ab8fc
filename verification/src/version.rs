//! The version text of the program.
use vstd::prelude::*;
use vstd::string::*;
use vstd::utf8::*;

verus! {

/// The commit shown: the given one or `unknown`, cut to its first seven
/// bytes when it is longer.
pub open spec fn shown_commit(commit: Option<&str>, shown: Seq<char>) -> bool {
    match commit {
        None => shown == "unknown"@,
        Some(c) => if c.spec_bytes().len() > 7 {
            encode_utf8(shown) == c.spec_bytes().subrange(0, 7)
        } else {
            shown == c@
        },
    }
}

/// The three lines of version information: the name, the version and the
/// commit.
pub fn version_information(name: &str, version: &str, commit: Option<&str>) -> (info: String)
    requires
        commit matches Some(c) ==> (c.spec_bytes().len() > 7 ==> is_char_boundary(c.spec_bytes(), 7)),
    ensures
        exists|shown: Seq<char>|
            shown_commit(commit, shown) && info@ == name@ + ":\n    Version: v"@ + version@
                + "\n    Commit: "@ + shown,
{
    let mut info = String::from_str(name);
    info.append(":\n    Version: v");
    info.append(version);
    info.append("\n    Commit: ");
    let shown = match commit {
        Some(c) => if c.as_bytes().len() > 7 {
            let (head, _) = c.split_at(7);
            assert(encode_utf8(head@) == c.spec_bytes().subrange(0, 7));
            head
        } else {
            c
        },
        None => "unknown",
    };
    info.append(shown);
    assert(shown_commit(commit, shown@));
    info
}

} // verus!
