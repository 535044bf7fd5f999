//! Noticing that the running binary was replaced.
use vstd::prelude::*;

use crate::clock::SECOND;
use crate::text::{ends_with, strip_suffix};

verus! {

/// How long to wait before asking again whether the service is idle, in nanoseconds.
pub const IDLE_RECHECK_INTERVAL: u64 = 5 * SECOND;

/// What the kernel appends to the path of a running binary that was unlinked.
pub const DELETED_SUFFIX: &'static str = " (deleted)";

/// A file was moved to the watched directory, as inotify reports it.
pub const MOVED_TO: u32 = 0x80;

/// A file that was open for writing was closed, as inotify reports it.
pub const CLOSE_WRITE: u32 = 0x8;

/// Events were lost, as inotify reports it.
pub const Q_OVERFLOW: u32 = 0x4000;

/// The name under which the binary is installed, given the name of the running one: the
/// kernel's suffix is no part of it.
pub fn installed_name(name: &str) -> (r: String)
    ensures
        r@ == if ends_with(name@, DELETED_SUFFIX@) {
            name@.subrange(0, name@.len() - DELETED_SUFFIX@.len())
        } else {
            name@
        },
{
    match strip_suffix(name, DELETED_SUFFIX) {
        Some(real_name) => real_name.to_owned(),
        None => name.to_owned(),
    }
}

/// The SHA-256 digest of contents.
pub uninterp spec fn sha256(contents: Seq<u8>) -> Seq<u8>;

/// `sha2::Sha256::digest`: the digest depends on the contents alone.
#[verifier::external_body]
fn sha256_digest(contents: &[u8]) -> (d: [u8; 32])
    ensures
        d@ == sha256(contents@),
{
    <sha2::Sha256 as sha2::Digest>::digest(contents).into()
}

/// The digest of a file's contents.
pub fn digest(contents: &[u8]) -> (d: [u8; 32])
    ensures
        d@ == sha256(contents@),
{
    sha256_digest(contents)
}

/// The running binary and the installed one are different files, going by their digests.
/// One that is not installed yet is no replacement; a running one that cannot be read is
/// taken to be replaced.
pub open spec fn digests_tell(running: Option<Seq<u8>>, installed: Option<Seq<u8>>) -> bool {
    installed is Some && running != installed
}

fn same_digest(a: &[u8; 32], b: &[u8; 32]) -> (r: bool)
    ensures
        r == (a@ == b@),
{
    let mut i: usize = 0;
    while i < 32
        invariant
            i <= 32,
            forall|j: int| 0 <= j < i ==> a@[j] == b@[j],
        decreases 32 - i,
    {
        if a[i] != b[i] {
            return false;
        }
        i = i + 1;
    }
    assert(a@ =~= b@);
    true
}

/// Whether digests tell of a replacement. `None` stands for a file that cannot be read.
pub fn digests_differ(running: Option<[u8; 32]>, installed: Option<[u8; 32]>) -> (r: bool)
    ensures
        r == digests_tell(
            match running {
                Some(d) => Some(d@),
                None => None,
            },
            match installed {
                Some(d) => Some(d@),
                None => None,
            },
        ),
{
    match installed {
        None => false,
        Some(i) => match running {
            None => true,
            Some(r) => !same_digest(&r, &i),
        },
    }
}

/// The digest of contents that may not have been read.
pub open spec fn digest_of(contents: Option<&[u8]>) -> Option<Seq<u8>> {
    match contents {
        Some(c) => Some(sha256(c@)),
        None => None,
    }
}

/// Whether the running binary was replaced by the installed one, given what could be read
/// of each.
pub fn replaced(running: Option<&[u8]>, installed: Option<&[u8]>) -> (r: bool)
    ensures
        r == digests_tell(digest_of(running), digest_of(installed)),
{
    let installed = match installed {
        Some(c) => Some(digest(c)),
        None => {
            return false;
        },
    };
    let running = match running {
        Some(c) => Some(digest(c)),
        None => None,
    };
    digests_differ(running, installed)
}

/// What the watch does on an event.
#[derive(Clone, Copy, Debug, PartialEq, Eq, Structural)]
pub enum WatchStep {
    /// The binary was replaced.
    Landed,
    /// Events were lost: compare the files.
    Compare,
    /// Nothing that matters: wait on.
    Wait,
}

/// The event says that a file landed under the watched name.
pub open spec fn landed(name: Option<Seq<u8>>, mask: u32, file_name: Seq<u8>) -> bool {
    name == Some(file_name) && mask & (MOVED_TO | CLOSE_WRITE) != 0
}

fn same_bytes(a: &[u8], b: &[u8]) -> (r: bool)
    ensures
        r == (a@ == b@),
{
    if a.len() != b.len() {
        return false;
    }
    let mut i: usize = 0;
    while i < a.len()
        invariant
            a@.len() == b@.len(),
            i <= a.len(),
            forall|j: int| 0 <= j < i ==> a@[j] == b@[j],
        decreases a.len() - i,
    {
        if a[i] != b[i] {
            return false;
        }
        i = i + 1;
    }
    assert(a@ =~= b@);
    true
}

/// What the watch for `file_name` does on an event on `name`.
pub fn watch_step(name: Option<&[u8]>, mask: u32, file_name: &[u8]) -> (step: WatchStep)
    ensures
        step == if landed(
            match name {
                Some(n) => Some(n@),
                None => None,
            },
            mask,
            file_name@,
        ) {
            WatchStep::Landed
        } else if mask & Q_OVERFLOW == Q_OVERFLOW {
            WatchStep::Compare
        } else {
            WatchStep::Wait
        },
{
    let named = match name {
        Some(n) => same_bytes(n, file_name),
        None => false,
    };
    if named && mask & (MOVED_TO | CLOSE_WRITE) != 0 {
        WatchStep::Landed
    } else if mask & Q_OVERFLOW == Q_OVERFLOW {
        WatchStep::Compare
    } else {
        WatchStep::Wait
    }
}

/// The same contents are no replacement.
pub proof fn law_same_contents_are_no_replacement(running: &[u8], installed: &[u8])
    requires
        running@ == installed@,
    ensures
        !digests_tell(digest_of(Some(running)), digest_of(Some(installed))),
{
}

} // verus!
