//! Discovery of repositories in a namespace tree, as a state machine.
//!
//! The walker keeps one open directory per level, depth first, from the root
//! down to the directory being read. It never touches the disk: the caller
//! holds the directory cursors, reads one entry at a time from the deepest
//! one, and reports what it saw; the walker says what to do with the entry.
use vstd::prelude::*;

use crate::name_policy::{
    ends_with_storage_suffix, ends_with_suffix, is_stem_char, is_valid_repo_stem, join_segments,
    lemma_join_segments, lemma_segments_append_plain, lemma_segments_nonempty, name_ok,
    segment_ok, segments, storage_suffix, valid_stem,
};
use crate::repository::{storage_path, DiscoveryError};

verus! {

/// How a directory entry is treated during discovery.
#[derive(Clone, Copy, Debug, PartialEq, Eq, Structural)]
pub enum EntryKind {
    /// Skipped as an error: not a directory, a symlink, or a bad name.
    Invalid,
    /// A namespace directory, walked into.
    Namespace,
    /// A repository directory, read as a record.
    Repository,
}

/// A repository directory's name without the storage suffix.
pub open spec fn stem_of(file_name: Seq<char>) -> Seq<char> {
    file_name.subrange(0, file_name.len() - 4)
}

/// Only a real directory with a valid name is walked into or read. A name
/// that ends in the storage suffix is a repository, and its stem before the
/// suffix must itself be a valid stem; any other name is a namespace.
pub open spec fn entry_kind(file_name: Seq<char>, is_dir: bool, is_symlink: bool) -> EntryKind {
    if !is_dir || is_symlink || !valid_stem(file_name) {
        EntryKind::Invalid
    } else if ends_with_suffix(file_name) {
        if valid_stem(stem_of(file_name)) {
            EntryKind::Repository
        } else {
            EntryKind::Invalid
        }
    } else {
        EntryKind::Namespace
    }
}

/// What the caller saw of one entry of the deepest open directory.
#[derive(Debug)]
pub struct DirEntryInfo {
    pub file_name: String,
    pub is_dir: bool,
    pub is_symlink: bool,
}

/// What to do with one entry; paths are relative to the root, with `/`
/// between segments.
#[derive(Debug)]
pub enum Step {
    /// Report this error and go on with the next sibling.
    Skip(DiscoveryError),
    /// Open the directory at `path` and report to `Walker::enter`.
    Descend { path: String, segment: String },
    /// Open the repository at `path` with the backend, read its description,
    /// and build the record with `Repository::read` under `name`.
    ReadRepository { path: String, name: String },
}

/// The state of a walk: the names of the open namespace directories below
/// the root, and whether the root itself is still open.
pub struct Walker {
    path: Vec<String>,
    open: bool,
}

impl Walker {
    /// The open namespace directories below the root, outermost first.
    pub closed spec fn segs(&self) -> Seq<Seq<char>> {
        self.path@.map_values(|s: String| s@)
    }

    /// Whether the walk still has an open directory.
    pub closed spec fn is_open(&self) -> bool {
        self.open
    }

    /// Every open directory below the root is a namespace, and a finished
    /// walk holds none.
    pub closed spec fn wf(&self) -> bool {
        &&& forall|i: int|
            0 <= i < self.segs().len() ==> entry_kind(#[trigger] self.segs()[i], true, false)
                == EntryKind::Namespace
        &&& (!self.open ==> self.path@.len() == 0)
    }

    /// A walk with the root open and nothing read yet.
    pub fn new() -> (w: Walker)
        ensures
            w.wf(),
            w.is_open(),
            w.segs() == Seq::<Seq<char>>::empty(),
    {
        let w = Walker { path: Vec::new(), open: true };
        assert(w.segs() =~= Seq::<Seq<char>>::empty());
        w
    }

    /// Whether every directory of the walk has been read to its end.
    pub fn is_finished(&self) -> (r: bool)
        ensures
            r == !self.is_open(),
    {
        !self.open
    }

    /// Decides what to do with an entry of the deepest open directory;
    /// `None` stands for an entry that could not be read. The walker itself
    /// is left as it is, so the next entry read is the next sibling.
    pub fn on_entry(&self, entry: Option<DirEntryInfo>) -> (r: Step)
        requires
            self.wf(),
        ensures
            match entry {
                None => r == Step::Skip(DiscoveryError::ReadError),
                Some(e) => match entry_kind(e.file_name@, e.is_dir, e.is_symlink) {
                    EntryKind::Invalid => r == Step::Skip(DiscoveryError::InvalidEntry),
                    EntryKind::Namespace => r matches Step::Descend { path, segment } && path@
                        == join_segments(self.segs().push(e.file_name@)) && segment@
                        == e.file_name@,
                    EntryKind::Repository => r matches Step::ReadRepository { path, name } && path@
                        == join_segments(self.segs().push(e.file_name@)) && name@
                        == join_segments(self.segs().push(stem_of(e.file_name@))),
                },
            },
    {
        let e = match entry {
            None => {
                return Step::Skip(DiscoveryError::ReadError);
            },
            Some(e) => e,
        };
        let kind = classify(e.file_name.as_str(), e.is_dir, e.is_symlink);
        match kind {
            EntryKind::Invalid => Step::Skip(DiscoveryError::InvalidEntry),
            EntryKind::Namespace => {
                let path = join_under(&self.path, e.file_name.as_str());
                proof {
                    self.lemma_segs_view();
                }
                Step::Descend { path, segment: e.file_name }
            },
            EntryKind::Repository => {
                let n = e.file_name.as_str().unicode_len();
                let stem = e.file_name.as_str().substring_char(0, n - 4);
                let path = join_under(&self.path, e.file_name.as_str());
                let name = join_under(&self.path, stem);
                proof {
                    self.lemma_segs_view();
                }
                Step::ReadRepository { path, name }
            },
        }
    }

    /// Reports the outcome of opening the namespace directory `segment` that
    /// `on_entry` asked for. Where it could not be opened, the walk stays at
    /// the same level and goes on with the next sibling.
    pub fn enter(&mut self, segment: String, opened: bool) -> (r: Option<DiscoveryError>)
        requires
            old(self).wf(),
        ensures
            final(self).wf(),
            !opened ==> {
                &&& r == Some(DiscoveryError::ReadError)
                &&& final(self).segs() == old(self).segs()
                &&& final(self).is_open() == old(self).is_open()
            },
            opened && (!old(self).is_open() || entry_kind(segment@, true, false)
                != EntryKind::Namespace) ==> {
                &&& r == Some(DiscoveryError::InvalidEntry)
                &&& final(self).segs() == old(self).segs()
                &&& final(self).is_open() == old(self).is_open()
            },
            opened && old(self).is_open() && entry_kind(segment@, true, false)
                == EntryKind::Namespace ==> {
                &&& r is None
                &&& final(self).segs() == old(self).segs().push(segment@)
                &&& final(self).is_open()
            },
    {
        if !opened {
            return Some(DiscoveryError::ReadError);
        }
        if !self.open || classify(segment.as_str(), true, false) != EntryKind::Namespace {
            return Some(DiscoveryError::InvalidEntry);
        }
        let ghost before = self.segs();
        let ghost seg = segment@;
        self.path.push(segment);
        assert(self.segs() =~= before.push(seg));
        None
    }

    /// Reports that the deepest open directory has no entries left: the walk
    /// goes back up one level, and is finished once the root is done.
    pub fn leave(&mut self)
        requires
            old(self).wf(),
        ensures
            final(self).wf(),
            old(self).segs().len() > 0 ==> final(self).segs() == old(self).segs().drop_last()
                && final(self).is_open() == old(self).is_open(),
            old(self).segs().len() == 0 ==> !final(self).is_open() && final(self).segs().len()
                == 0,
    {
        if self.path.len() > 0 {
            let ghost before = self.segs();
            let _ = self.path.pop();
            assert(self.segs() =~= before.drop_last());
        } else {
            self.open = false;
        }
    }

    proof fn lemma_segs_view(&self)
        ensures
            self.segs().len() == self.path@.len(),
            forall|i: int| 0 <= i < self.path@.len() ==> #[trigger] self.segs()[i] == self.path@[i]@,
    {
    }
}

/// The class of an entry, as `entry_kind` states it.
pub fn classify(file_name: &str, is_dir: bool, is_symlink: bool) -> (r: EntryKind)
    ensures
        r == entry_kind(file_name@, is_dir, is_symlink),
{
    if !is_dir || is_symlink || !is_valid_repo_stem(file_name) {
        EntryKind::Invalid
    } else if ends_with_storage_suffix(file_name) {
        let n = file_name.unicode_len();
        if is_valid_repo_stem(file_name.substring_char(0, n - 4)) {
            EntryKind::Repository
        } else {
            EntryKind::Invalid
        }
    } else {
        EntryKind::Namespace
    }
}

/// The segments of `dirs`, then `last`, joined with slashes.
fn join_under(dirs: &Vec<String>, last: &str) -> (r: String)
    ensures
        r@ == join_segments(dirs@.map_values(|s: String| s@).push(last@)),
{
    let ghost segs = dirs@.map_values(|s: String| s@);
    proof {
        reveal_strlit("/");
    }
    assert("/"@ =~= seq!['/']);
    let mut out = String::new();
    let mut i: usize = 0;
    while i < dirs.len()
        invariant
            i <= dirs@.len(),
            "/"@ == seq!['/'],
            segs == dirs@.map_values(|s: String| s@),
            i == 0 ==> out@ == Seq::<char>::empty(),
            i > 0 ==> out@ == join_segments(segs.subrange(0, i as int)) + seq!['/'],
        decreases dirs.len() - i,
    {
        let ghost prev = segs.subrange(0, i as int);
        let ghost next = segs.subrange(0, i + 1);
        let ghost before = out@;
        out.append(dirs[i].as_str());
        out.append("/");
        assert(out@ =~= before + dirs@[i as int]@ + seq!['/']);
        assert(next.drop_last() =~= prev);
        assert(next.last() == dirs@[i as int]@);
        if i == 0 {
            assert(next.len() == 1);
            assert(join_segments(next) == next[0]);
            assert(out@ =~= join_segments(next) + seq!['/']);
        } else {
            assert(next.len() > 1);
            assert(join_segments(next) == join_segments(prev) + seq!['/'] + next.last());
            assert(out@ =~= join_segments(next) + seq!['/']);
        }
        i = i + 1;
    }
    out.append(last);
    assert(segs.subrange(0, i as int) =~= segs);
    assert(segs.push(last@).drop_last() =~= segs);
    if i == 0 {
        assert(out@ =~= last@);
    } else {
        assert(out@ =~= join_segments(segs) + seq!['/'] + last@);
    }
    out
}

/// A symlink is never walked into nor read as a repository, whatever it
/// points to.
pub proof fn lemma_symlink_never_listed(file_name: Seq<char>, is_dir: bool)
    ensures
        entry_kind(file_name, is_dir, true) == EntryKind::Invalid,
{
}

/// A repository provisioned under an acceptable name is found again under
/// that very name: along its storage path every directory above it is a
/// namespace, the last one is a repository, and the name derived from it is
/// the name it was created with.
pub proof fn lemma_provisioned_name_is_rediscovered(name: Seq<char>)
    requires
        name_ok(name),
    ensures
        ({
            let dirs = segments(storage_path(name));
            let n = dirs.len();
            &&& n >= 1
            &&& join_segments(dirs) == storage_path(name)
            &&& forall|i: int|
                0 <= i < n - 1 ==> entry_kind(#[trigger] dirs[i], true, false)
                    == EntryKind::Namespace
            &&& entry_kind(dirs[n - 1], true, false) == EntryKind::Repository
            &&& join_segments(dirs.subrange(0, n - 1).push(stem_of(dirs[n - 1]))) == name
        }),
{
    let sfx = storage_suffix();
    let segs = segments(name);
    lemma_segments_nonempty(name);
    lemma_segments_append_plain(name, sfx);
    lemma_join_segments(storage_path(name));
    lemma_join_segments(name);
    let dirs = segments(storage_path(name));
    let n = dirs.len();
    let last = segs[n - 1];
    assert(segment_ok(segs[n - 1]));
    assert forall|i: int| 0 <= i < n - 1 implies entry_kind(#[trigger] dirs[i], true, false)
        == EntryKind::Namespace by {
        assert(dirs[i] == segs[i]);
        assert(segment_ok(segs[i]));
    }
    let leaf = last + sfx;
    assert(dirs[n - 1] == leaf);
    assert forall|i: int| 0 <= i < leaf.len() implies #[trigger] is_stem_char(leaf[i]) by {
        if i < last.len() {
            assert(leaf[i] == last[i]);
        } else {
            assert(leaf[i] == sfx[i - last.len()]);
        }
    }
    assert(leaf.subrange(leaf.len() - 4, leaf.len() as int) =~= sfx);
    assert(valid_stem(leaf)) by {
        assert(leaf.len() != seq!['.'].len());
        assert(leaf.len() != seq!['.', '.'].len());
    }
    assert(stem_of(leaf) =~= last);
    assert(valid_stem(stem_of(leaf)));
    assert(dirs.subrange(0, n - 1).push(last) =~= segs);
}

} // verus!
