//! Finding a project's policy file, and refusing one that cannot be trusted.
use vstd::prelude::*;

use crate::text::{chars_of, chars_parse_u32, decimal, parse_u32, push_decimal, to_owned_string};

verus! {

broadcast use vstd::string::group_string_axioms;

/// Why no usable policy was found.
#[derive(Debug)]
pub enum DiscoveryError {
    /// No policy file on the way up.
    NotFound,
    /// The file system could not be searched.
    Io(std::io::Error),
    /// The policy file found is not trusted.
    InsecurePolicy { path: String, reason: String },
}

/// One directory on the way from the start directory up to the file system root.
#[derive(Debug, Clone, Copy, PartialEq, Eq, Structural)]
pub struct DirLevel {
    /// The directory holds `.syscallcage.yaml`.
    pub has_policy: bool,
    /// The directory holds `.git`: the search does not go above it.
    pub has_git: bool,
}

/// What the search found out about a candidate policy file and about the caller.
#[derive(Debug, Clone)]
pub struct PolicyFileFacts {
    /// The entry itself (not what a link points to) is a regular file.
    pub is_file: bool,
    /// Its permission bits.
    pub mode: u32,
    /// Its owner.
    pub uid: u32,
    /// The effective user of this process.
    pub euid: u32,
    /// The value of `SUDO_UID`, where it is set and valid text.
    pub sudo_uid_text: Option<String>,
}

/// Some level holds `.git`.
pub open spec fn git_somewhere(levels: Seq<DirLevel>) -> bool {
    exists|k: int| 0 <= k < levels.len() && (#[trigger] levels[k]).has_git
}

/// Where the upward search stops with a policy: the first level that holds one,
/// provided that no level before it holds a policy or a `.git`. Above the start
/// directory the search only goes where some level holds `.git`.
pub open spec fn found_at(levels: Seq<DirLevel>, i: int) -> bool {
    &&& 0 <= i < levels.len()
    &&& levels[i].has_policy
    &&& forall|j: int| 0 <= j < i ==> !(#[trigger] levels[j]).has_policy && !levels[j].has_git
    &&& (i == 0 || git_somewhere(levels))
}

fn any_git(levels: &[DirLevel]) -> (r: bool)
    ensures
        r == git_somewhere(levels@),
{
    let mut i: usize = 0;
    while i < levels.len()
        invariant
            i <= levels.len(),
            forall|j: int| 0 <= j < i ==> !(#[trigger] levels@[j]).has_git,
        decreases levels.len() - i,
    {
        if levels[i].has_git {
            assert(levels@[i as int].has_git);
            return true;
        }
        i = i + 1;
    }
    false
}

/// Searches the directories from the start upwards for a policy file.
///
/// The search stops at the first directory holding a policy file, and never goes
/// above the first directory holding `.git` (that one is still searched). Where no
/// directory holds `.git`, only the start directory is searched. The result is the
/// index of the level where the policy was found.
pub fn discover_policy(levels: &[DirLevel]) -> (r: Option<usize>)
    ensures
        match r {
            Some(i) => found_at(levels@, i as int),
            None => forall|i: int| 0 <= i < levels@.len() ==> !found_at(levels@, i),
        },
{
    if !any_git(levels) {
        if levels.len() > 0 && levels[0].has_policy {
            return Some(0);
        }
        return None;
    }
    let mut i: usize = 0;
    while i < levels.len()
        invariant
            i <= levels.len(),
            git_somewhere(levels@),
            forall|j: int| 0 <= j < i ==> !(#[trigger] levels@[j]).has_policy && !levels@[j].has_git,
        decreases levels.len() - i,
    {
        if levels[i].has_policy {
            return Some(i);
        }
        if levels[i].has_git {
            assert forall|k: int| 0 <= k < levels@.len() implies !found_at(levels@, k) by {
                if k > i {
                    assert(levels@[i as int].has_git);
                }
            }
            return None;
        }
        i = i + 1;
    }
    None
}

/// The reason given for an entry that is not a regular file.
pub open spec fn not_regular_reason() -> Seq<char> {
    "não é um arquivo regular (pode ser um symlink malicioso)"@
}

/// The reason given for a file that others may write.
pub open spec fn world_writable_reason() -> Seq<char> {
    "o arquivo é gravável por outros usuários (permissão o+w)"@
}

/// How `{:?}` shows an optional user id.
pub open spec fn debug_uid(u: Option<u32>) -> Seq<char> {
    match u {
        Some(n) => "Some("@ + decimal(n as nat) + ")"@,
        None => "None"@,
    }
}

/// The reason given for a file owned by someone else.
pub open spec fn foreign_owner_reason(uid: u32, euid: u32, sudo_uid: Option<u32>) -> Seq<char> {
    "dono do arquivo (uid: "@ + decimal(uid as nat) + ") não é root nem o usuário atual (uid: "@
        + decimal(euid as nat) + ", sudo_uid: "@ + debug_uid(sudo_uid) + ")"@
}

/// The user id that `SUDO_UID` names, if it is set and a valid number.
pub open spec fn sudo_uid_of(text: Option<String>) -> Option<u32> {
    match text {
        Some(t) => parse_u32(t@),
        None => None,
    }
}

/// Why a candidate policy file is refused, if it is.
pub open spec fn refusal(f: PolicyFileFacts) -> Option<Seq<char>> {
    if !f.is_file {
        Some(not_regular_reason())
    } else if f.mode & 2 != 0 {
        Some(world_writable_reason())
    } else if f.uid != f.euid && f.uid != 0 && Some(f.uid) != sudo_uid_of(f.sudo_uid_text) {
        Some(foreign_owner_reason(f.uid, f.euid, sudo_uid_of(f.sudo_uid_text)))
    } else {
        None
    }
}

fn uid_from_text(text: &Option<String>) -> (r: Option<u32>)
    ensures
        r == sudo_uid_of(*text),
{
    match text {
        Some(t) => {
            let c = chars_of(t.as_str());
            chars_parse_u32(c.as_slice())
        },
        None => None,
    }
}

fn debug_uid_text(s: &mut String, u: Option<u32>)
    ensures
        final(s)@ == old(s)@ + debug_uid(u),
{
    match u {
        Some(n) => {
            s.append("Some(");
            push_decimal(s, n as u64);
            s.append(")");
        },
        None => {
            s.append("None");
        },
    }
}

/// Refuses a policy file that was found automatically unless it can be trusted:
/// it must be a regular file (not a link), others may not write it, and it must
/// belong to root, to the effective user or to the user that ran `sudo`.
pub fn validate_discovered_policy(path: &str, facts: &PolicyFileFacts) -> (r: Result<(), DiscoveryError>)
    ensures
        match refusal(*facts) {
            None => r is Ok,
            Some(reason) => r matches Err(DiscoveryError::InsecurePolicy { path: p, reason: why })
                && p@ == path@ && why@ == reason,
        },
{
    if !facts.is_file {
        return Err(
            DiscoveryError::InsecurePolicy {
                path: to_owned_string(path),
                reason: to_owned_string("não é um arquivo regular (pode ser um symlink malicioso)"),
            },
        );
    }
    if facts.mode & 2 != 0 {
        return Err(
            DiscoveryError::InsecurePolicy {
                path: to_owned_string(path),
                reason: to_owned_string("o arquivo é gravável por outros usuários (permissão o+w)"),
            },
        );
    }
    let sudo_uid = uid_from_text(&facts.sudo_uid_text);
    let same_sudo = match sudo_uid {
        Some(s) => s == facts.uid,
        None => false,
    };
    if facts.uid != facts.euid && facts.uid != 0 && !same_sudo {
        let mut reason = to_owned_string("dono do arquivo (uid: ");
        push_decimal(&mut reason, facts.uid as u64);
        reason.append(") não é root nem o usuário atual (uid: ");
        push_decimal(&mut reason, facts.euid as u64);
        reason.append(", sudo_uid: ");
        debug_uid_text(&mut reason, sudo_uid);
        reason.append(")");
        return Err(DiscoveryError::InsecurePolicy { path: to_owned_string(path), reason });
    }
    Ok(())
}

} // verus!
