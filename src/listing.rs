//! What a whole discovery walk lists, stated over a model of the tree.
//!
//! The walker opens the root, enters a directory only when `on_entry` calls
//! it a namespace and the caller could open it, and yields a record for an
//! entry that `on_entry` calls a repository and the backend opens. The
//! definitions below collect those rules over every path of a tree at once.
use vstd::prelude::*;

use crate::name_policy::{join_segments, name_ok, segments};
use crate::repository::storage_path;
use crate::walk::{entry_kind, lemma_provisioned_name_is_rediscovered, stem_of, EntryKind};

verus! {

/// What the walk can learn of one path under the root.
pub enum FsEntry {
    File,
    /// A symlink, whatever it points to.
    Symlink,
    /// A directory: whether it can be opened for reading, and whether the
    /// backend opens it as a repository.
    Dir { readable: bool, repository: bool },
}

/// The path `p` (segments below the root) is a namespace that the walk opens.
pub open spec fn namespace_at(tree: Map<Seq<Seq<char>>, FsEntry>, p: Seq<Seq<char>>) -> bool {
    &&& p.len() >= 1
    &&& tree.contains_key(p)
    &&& (tree[p] matches FsEntry::Dir { readable, .. } && readable)
    &&& entry_kind(p.last(), true, false) == EntryKind::Namespace
}

/// The walk reaches the directory `p`: the root, or a namespace below
/// namespaces that it reaches.
pub open spec fn reached(tree: Map<Seq<Seq<char>>, FsEntry>, p: Seq<Seq<char>>) -> bool {
    forall|i: int| 0 <= i < p.len() ==> #[trigger] namespace_at(tree, p.subrange(0, i + 1))
}

/// The walk yields a record for the repository at `p`.
pub open spec fn listed_at(tree: Map<Seq<Seq<char>>, FsEntry>, p: Seq<Seq<char>>) -> bool {
    &&& p.len() >= 1
    &&& reached(tree, p.drop_last())
    &&& tree.contains_key(p)
    &&& (tree[p] matches FsEntry::Dir { repository, .. } && repository)
    &&& entry_kind(p.last(), true, false) == EntryKind::Repository
}

/// The name of the record for the repository at `p`, as `on_entry` gives it.
pub open spec fn listed_name(p: Seq<Seq<char>>) -> Seq<char> {
    join_segments(p.drop_last().push(stem_of(p.last())))
}

/// The names in a full listing of `tree`.
pub open spec fn listing(tree: Map<Seq<Seq<char>>, FsEntry>) -> Set<Seq<char>> {
    Set::new(|n: Seq<char>| exists|p: Seq<Seq<char>>| listed_at(tree, p) && listed_name(p) == n)
}

/// A path is never listed when it, or a directory above it, is a symlink,
/// even if the symlink points to a valid repository.
pub proof fn lemma_symlink_never_in_listing(
    tree: Map<Seq<Seq<char>>, FsEntry>,
    p: Seq<Seq<char>>,
    k: int,
)
    requires
        1 <= k <= p.len(),
        tree.contains_key(p.subrange(0, k)),
        tree[p.subrange(0, k)] == FsEntry::Symlink,
    ensures
        !listed_at(tree, p),
{
    if k == p.len() {
        assert(p.subrange(0, k) =~= p);
    } else if listed_at(tree, p) {
        let q = p.drop_last();
        assert(namespace_at(tree, q.subrange(0, k - 1 + 1)));
        assert(q.subrange(0, k) =~= p.subrange(0, k));
    }
}

/// What stands at a path `u` (say, a namespace that cannot be opened) has no
/// bearing on whether a repository outside `u` is listed: the walk goes on
/// past it to its siblings and to unrelated branches.
pub proof fn lemma_listing_outside_unaffected(
    tree: Map<Seq<Seq<char>>, FsEntry>,
    u: Seq<Seq<char>>,
    e: FsEntry,
    p: Seq<Seq<char>>,
)
    requires
        !(u.len() <= p.len() && p.subrange(0, u.len() as int) == u),
    ensures
        listed_at(tree.insert(u, e), p) == listed_at(tree, p),
{
    let t2 = tree.insert(u, e);
    assert(p != u) by {
        if p == u {
            assert(p.subrange(0, u.len() as int) =~= p);
        }
    }
    if p.len() >= 1 {
        let q = p.drop_last();
        assert forall|i: int| 0 <= i < q.len() implies #[trigger] q.subrange(0, i + 1) != u by {
            let a = q.subrange(0, i + 1);
            if a == u {
                assert(p.subrange(0, u.len() as int) =~= a);
            }
        }
        if reached(tree, q) {
            assert forall|i: int| 0 <= i < q.len() implies #[trigger] namespace_at(
                t2,
                q.subrange(0, i + 1),
            ) by {
                assert(namespace_at(tree, q.subrange(0, i + 1)));
            }
        }
        if reached(t2, q) {
            assert forall|i: int| 0 <= i < q.len() implies #[trigger] namespace_at(
                tree,
                q.subrange(0, i + 1),
            ) by {
                assert(namespace_at(t2, q.subrange(0, i + 1)));
            }
        }
        assert(reached(t2, q) == reached(tree, q));
    }
}

/// A repository provisioned under an acceptable name, with its namespace
/// directories readable and the backend opening it, is in the listing under
/// exactly that name.
pub proof fn lemma_provisioned_repository_listed(tree: Map<Seq<Seq<char>>, FsEntry>, name: Seq<char>)
    requires
        name_ok(name),
        ({
            let p = segments(storage_path(name));
            &&& forall|i: int|
                0 <= i < p.len() - 1 ==> #[trigger] tree.contains_key(p.subrange(0, i + 1))
                    && (tree[p.subrange(0, i + 1)] matches FsEntry::Dir { readable, .. }
                    && readable)
            &&& tree.contains_key(p)
            &&& (tree[p] matches FsEntry::Dir { repository, .. } && repository)
        }),
    ensures
        listing(tree).contains(name),
{
    lemma_provisioned_name_is_rediscovered(name);
    let p = segments(storage_path(name));
    let q = p.drop_last();
    assert forall|i: int| 0 <= i < q.len() implies #[trigger] namespace_at(
        tree,
        q.subrange(0, i + 1),
    ) by {
        assert(q.subrange(0, i + 1) =~= p.subrange(0, i + 1));
        assert(p.subrange(0, i + 1).last() == p[i]);
        assert(tree.contains_key(p.subrange(0, i + 1)));
    }
    assert(listed_at(tree, p));
    assert(p.subrange(0, p.len() - 1) =~= q);
    assert(listed_name(p) == name);
}

} // verus!
