//! Report and state must not be the same file under two names. Directories must be trusted.
use vstd::prelude::*;


verus! {

/// How many links and missing directories are followed at most.
pub const MAX_DEPTH: usize = 128;

/// What the file system says of a path as a whole.
#[derive(Clone, Copy, Debug, PartialEq, Eq, Structural)]
pub enum Whole {
    Resolved,
    Missing,
    Unreadable,
}

/// What the file system says of the last part of a path that is missing as a whole.
#[derive(Clone, Copy, Debug, PartialEq, Eq, Structural)]
pub enum Last {
    Link,
    Missing,
    Other,
}

/// How a path is resolved further.
#[derive(Clone, Copy, Debug, PartialEq, Eq, Structural)]
pub enum Step {
    /// It is resolved.
    Done,
    /// It is a link to something that is missing: that is resolved instead, from where the link is.
    FollowLink,
    /// It is missing: the directory that it would be in is resolved instead.
    ResolveParent,
    /// It cannot be resolved.
    Fail,
}

/// What is said of a path that cannot be resolved.
pub const UNRESOLVED: &'static str = "Cannot resolve controller paths";

/// What is said where the report would replace part of the state.
pub const CONFLICT: &'static str = "Controller output conflicts with state or its sidecars";

/// How a path is resolved: links are followed and missing parts kept, without ever taking a parent
/// of a link by its name alone, and never without end.
pub open spec fn resolution(depth: usize, whole: Whole, last: Last) -> Step {
    if depth > MAX_DEPTH {
        Step::Fail
    } else {
        match whole {
            Whole::Resolved => Step::Done,
            Whole::Unreadable => Step::Fail,
            Whole::Missing => match last {
                Last::Link => Step::FollowLink,
                Last::Missing => Step::ResolveParent,
                Last::Other => Step::Fail,
            },
        }
    }
}

pub fn resolve(depth: usize, whole: Whole, last: Last) -> (r: Step)
    ensures
        r == resolution(depth, whole, last),
        r == Step::FollowLink || r == Step::ResolveParent ==> depth < MAX_DEPTH + 1,
{
    if depth > MAX_DEPTH {
        return Step::Fail;
    }
    match whole {
        Whole::Resolved => Step::Done,
        Whole::Unreadable => Step::Fail,
        Whole::Missing => match last {
            Last::Link => Step::FollowLink,
            Last::Missing => Step::ResolveParent,
            Last::Other => Step::Fail,
        },
    }
}

/// Every path is resolved, or given up, after a bounded number of steps.
pub proof fn resolution_ends(depth: usize, whole: Whole, last: Last)
    requires
        depth > MAX_DEPTH,
    ensures
        resolution(depth, whole, last) == Step::Fail,
{
}

/// A file as it is compared with others: its resolved path, and what identifies it to the machine,
/// where it exists.
pub struct FileId {
    pub path: Vec<u8>,
    pub node: Option<(u64, u64)>,
}

#[verifier::ext_equal]
pub struct FileIdView {
    pub path: Seq<u8>,
    pub node: Option<(u64, u64)>,
}

impl FileId {
    pub open spec fn view(&self) -> FileIdView {
        FileIdView { path: self.path@, node: self.node }
    }
}

/// Whether two paths are of one file.
pub open spec fn same_file(a: FileIdView, b: FileIdView) -> bool {
    a.path == b.path || a.node is Some && a.node == b.node
}

fn same_bytes(a: &Vec<u8>, b: &Vec<u8>) -> (r: bool)
    ensures
        r == (a@ == b@),
{
    if a.len() != b.len() {
        return false;
    }
    let mut i: usize = 0;
    while i < a.len()
        invariant
            a@.len() == b@.len(),
            i <= a@.len(),
            forall|k: int| 0 <= k < i ==> a@[k] == b@[k],
        decreases a@.len() - i,
    {
        if a[i] != b[i] {
            return false;
        }
        i += 1;
    }
    assert(a@ =~= b@);
    true
}

pub fn is_same_file(a: &FileId, b: &FileId) -> (r: bool)
    ensures
        r == same_file(a@, b@),
{
    if same_bytes(&a.path, &b.path) {
        return true;
    }
    match (a.node, b.node) {
        (Some(x), Some(y)) => x.0 == y.0 && x.1 == y.1,
        _ => false,
    }
}

/// What is appended to the path of the state to name the files that belong to it: the database
/// itself, its lock and what SQLite keeps beside it.
pub open spec fn suffixes() -> Seq<Seq<char>> {
    seq![""@, ".lock"@, "-journal"@, "-wal"@, "-shm"@]
}

pub fn sidecars() -> (r: Vec<&'static str>)
    ensures
        Seq::new(r@.len(), |i: int| r@[i]@) == suffixes(),
{
    let mut r: Vec<&'static str> = Vec::new();
    r.push("");
    r.push(".lock");
    r.push("-journal");
    r.push("-wal");
    r.push("-shm");
    assert(Seq::new(r@.len(), |i: int| r@[i]@) =~= suffixes());
    r
}

/// Whether a file of the state is known and another one than the report.
pub open spec fn apart(part: Option<FileId>, output: FileIdView) -> bool {
    match part {
        Some(f) => !same_file(f@, output),
        None => false,
    }
}

/// Checks that the report is none of the files of the state, each of which is given where it could
/// be resolved. The first that is in doubt decides.
pub fn validate(state: &Vec<Option<FileId>>, output: &FileId) -> (r: Result<(), &'static str>)
    ensures
        match r {
            Ok(()) => forall|i: int| 0 <= i < state@.len() ==> apart(#[trigger] state@[i], output@),
            Err(e) => exists|i: int|
                0 <= i < state@.len() && !apart(#[trigger] state@[i], output@) && (forall|k: int|
                    0 <= k < i ==> apart(#[trigger] state@[k], output@)) && e@ == (
                if state@[i] is None {
                    UNRESOLVED@
                } else {
                    CONFLICT@
                }),
        },
{
    let mut i: usize = 0;
    while i < state.len()
        invariant
            i <= state@.len(),
            forall|k: int| 0 <= k < i ==> apart(#[trigger] state@[k], output@),
        decreases state@.len() - i,
    {
        match &state[i] {
            Some(part) => {
                if is_same_file(part, output) {
                    assert(!apart(state@[i as int], output@));
                    return Err(CONFLICT);
                }
            },
            None => {
                assert(!apart(state@[i as int], output@));
                return Err(UNRESOLVED);
            },
        }
        i += 1;
    }
    Ok(())
}

}
