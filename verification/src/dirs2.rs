//! The directories and files that the registry knows by name.

use vstd::prelude::*;
use vstd::string::StringExecFns;
use crate::mac::JAVA_VM_DIR;
use crate::text::{chars_of, find_char, lemma_find, str_eq};

verus! {

/// The name of the marker: the entry that leads to the active installation.
pub const CURRENT: &'static str = "Current";

/// The path of the entry `name` of the directory `dir`.
pub open spec fn child(dir: Seq<char>, name: Seq<char>) -> Seq<char> {
    if dir.len() == 0 || dir.last() == '/' {
        dir + name
    } else {
        dir + seq!['/'] + name
    }
}

/// A name that an installation can have: one path segment other than `.` and
/// `..`, and not the name of the marker.
pub open spec fn is_entry_name(name: Seq<char>) -> bool {
    &&& name.len() > 0
    &&& !name.contains('/')
    &&& name != "."@
    &&& name != ".."@
    &&& name != CURRENT@
}

/// The path of the marker of the root directory `root`.
pub open spec fn marker_of(root: Seq<char>) -> Seq<char> {
    child(root, CURRENT@)
}

/// The path of the release file of the installation at `dir`.
pub open spec fn release_of(dir: Seq<char>) -> Seq<char> {
    child(child(child(dir, "Contents"@), "Home"@), "release"@)
}

/// The directory in which the installations of this system live.
pub fn jvm_respo() -> (r: Option<String>)
    ensures
        r matches Some(p) && p@ == JAVA_VM_DIR@,
{
    Some(JAVA_VM_DIR.to_owned())
}

/// The path of the entry `name` of the directory `dir`.
pub fn child_path(dir: &str, name: &str) -> (p: String)
    ensures
        p@ == child(dir@, name@),
{
    let n = dir.unicode_len();
    let mut p = dir.to_owned();
    if n > 0 && dir.get_char(n - 1) != '/' {
        proof {
            reveal_strlit("/");
            assert("/"@ =~= seq!['/']);
        }
        p.append("/");
    }
    p.append(name);
    p
}

/// Whether an installation can have this name.
pub fn entry_name_ok(name: &str) -> (r: bool)
    ensures
        r == is_entry_name(name@),
{
    let v = chars_of(name);
    let slash = find_char(&v, 0, v.len(), '/');
    proof {
        lemma_find(v@, '/');
        assert(v@.subrange(0, v@.len() as int) =~= v@);
        if slash < v.len() {
            assert(v@.contains('/'));
        } else {
            assert forall|j: int| 0 <= j < v@.len() implies v@[j] != '/' by {}
        }
    }
    v.len() > 0 && slash == v.len() && !str_eq(name, ".") && !str_eq(name, "..") && !str_eq(
        name,
        CURRENT,
    )
}

/// The path of the marker of the root directory `root`.
pub fn marker_path(root: &str) -> (p: String)
    ensures
        p@ == marker_of(root@),
{
    child_path(root, CURRENT)
}

/// The path of the release file of the installation at `dir`.
pub fn release_file(dir: &str) -> (p: String)
    ensures
        p@ == release_of(dir@),
{
    let contents = child_path(dir, "Contents");
    let home = child_path(contents.as_str(), "Home");
    child_path(home.as_str(), "release")
}

/// Whether the directory that the environment names as the home of Java is
/// the marker of `root`, which is what it has to be.
pub fn java_home_is_marker(java_home: &str, root: &str) -> (r: bool)
    ensures
        r == (java_home@ == marker_of(root@)),
{
    let marker = marker_path(root);
    str_eq(java_home, marker.as_str())
}

} // verus!
