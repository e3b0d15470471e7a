//! The decision core of the change pipeline: classifying debounced
//! filesystem notifications into actions, and committing the resulting
//! mutations into the store. Parsing happens before any store access;
//! each mutation here is one call, made under one exclusive access, so a
//! reader sees the complete state before it or the complete state after
//! it, never a mix.

use vstd::prelude::*;

use crate::db::spec_inserted;
use crate::db::PostsStore;
use crate::error::Error;
use crate::id::spec_id_of_file_name;
use crate::id::Id;
use crate::post::RenderedPost;

verus! {

/// A debounced filesystem notification, reduced to the file names it
/// concerns.
pub enum FsEvent {
    /// A file appeared.
    Create { name: String },
    /// A file's contents changed.
    Write { name: String },
    /// A file went away.
    Remove { name: String },
    /// A file moved.
    Rename { old_name: String, new_name: String },
    /// The whole directory must be re-read.
    Rescan,
}

/// What the pipeline decides to do, as mathematical values.
pub ghost enum SpecAction {
    Update(Seq<char>),
    Remove(Seq<char>),
    Rename(Seq<char>, Seq<char>),
    Scan,
    Ignore,
}

/// What the pipeline decides to do with one notification.
pub enum Action {
    /// Re-parse the file and supersede the document under this identifier.
    Update { id: Id },
    /// Remove the document under this identifier.
    Remove { id: Id },
    /// Remove the old identifier and insert under the new one.
    Rename { old_id: Id, new_id: Id },
    /// Rebuild the whole store from the directory.
    Scan,
    /// The notification concerns no post file.
    Ignore,
}

impl View for Action {
    type V = SpecAction;

    open spec fn view(&self) -> SpecAction {
        match self {
            Action::Update { id } => SpecAction::Update(id@),
            Action::Remove { id } => SpecAction::Remove(id@),
            Action::Rename { old_id, new_id } => SpecAction::Rename(old_id@, new_id@),
            Action::Scan => SpecAction::Scan,
            Action::Ignore => SpecAction::Ignore,
        }
    }
}

/// The action a notification classifies to: create and write events on a
/// valid post file name become updates; a remove event becomes a removal;
/// a rename resolves both ends independently; a rescan asks for a full
/// scan; everything else is ignored.
pub open spec fn spec_classify(e: FsEvent) -> SpecAction {
    match e {
        FsEvent::Create { name } => match spec_id_of_file_name(name@) {
            Some(id) => SpecAction::Update(id),
            None => SpecAction::Ignore,
        },
        FsEvent::Write { name } => match spec_id_of_file_name(name@) {
            Some(id) => SpecAction::Update(id),
            None => SpecAction::Ignore,
        },
        FsEvent::Remove { name } => match spec_id_of_file_name(name@) {
            Some(id) => SpecAction::Remove(id),
            None => SpecAction::Ignore,
        },
        FsEvent::Rename { old_name, new_name } => match (
            spec_id_of_file_name(old_name@),
            spec_id_of_file_name(new_name@),
        ) {
            (Some(o), Some(n)) => SpecAction::Rename(o, n),
            (None, Some(n)) => SpecAction::Update(n),
            (Some(o), None) => SpecAction::Remove(o),
            (None, None) => SpecAction::Ignore,
        },
        FsEvent::Rescan => SpecAction::Scan,
    }
}

/// Classify one notification.
pub fn classify(e: &FsEvent) -> (a: Action)
    ensures
        a@ == spec_classify(*e),
{
    match e {
        FsEvent::Create { name } => match Id::from_file_name(name.as_str()) {
            Some(id) => Action::Update { id },
            None => Action::Ignore,
        },
        FsEvent::Write { name } => match Id::from_file_name(name.as_str()) {
            Some(id) => Action::Update { id },
            None => Action::Ignore,
        },
        FsEvent::Remove { name } => match Id::from_file_name(name.as_str()) {
            Some(id) => Action::Remove { id },
            None => Action::Ignore,
        },
        FsEvent::Rename { old_name, new_name } => {
            let old_id = Id::from_file_name(old_name.as_str());
            let new_id = Id::from_file_name(new_name.as_str());
            match (old_id, new_id) {
                (Some(o), Some(n)) => Action::Rename { old_id: o, new_id: n },
                (None, Some(n)) => Action::Update { id: n },
                (Some(o), None) => Action::Remove { id: o },
                (None, None) => Action::Ignore,
            }
        },
        FsEvent::Rescan => Action::Scan,
    }
}

/// Commit an update: a successfully parsed document supersedes whatever
/// stood under its identifier; a parse failure leaves the store exactly
/// as it was.
pub fn apply_update(store: &mut PostsStore, res: Result<RenderedPost, Error>)
    requires
        old(store).wf(),
        res matches Ok(p) ==> p.wf(),
    ensures
        final(store).wf(),
        match res {
            Ok(p) => spec_inserted(*old(store), p, *final(store)),
            Err(_) => *final(store) == *old(store),
        },
{
    match res {
        Ok(p) => {
            let _ = store.insert(p);
        },
        Err(_) => {},
    }
}

/// Commit a rename under one exclusive access: the old identifier is
/// removed; then, exactly when the new path's parse succeeded, the new
/// document is inserted. No state in which both identifiers are missing
/// is ever exposed when the parse succeeded; a failed parse still removes
/// the old identifier.
pub fn apply_rename(store: &mut PostsStore, old_id: &str, res: Result<RenderedPost, Error>)
    requires
        old(store).wf(),
        res matches Ok(p) ==> p.wf(),
    ensures
        final(store).wf(),
        match res {
            Ok(p) => {
                &&& final(store).spec_contains(p.id@) && final(store).spec_at(p.id@) == p
                &&& old_id@ != p.id@ ==> !final(store).spec_contains(old_id@)
                &&& forall|x: Seq<char>|
                    x != old_id@ && x != p.id@ ==> (#[trigger] final(store).spec_contains(x)
                        == old(store).spec_contains(x) && (old(store).spec_contains(x)
                        ==> final(store).spec_at(x) == old(store).spec_at(x)))
            },
            Err(_) => {
                &&& !final(store).spec_contains(old_id@)
                &&& forall|x: Seq<char>|
                    x != old_id@ ==> (#[trigger] final(store).spec_contains(x)
                        == old(store).spec_contains(x) && (old(store).spec_contains(x)
                        ==> final(store).spec_at(x) == old(store).spec_at(x)))
            },
        },
{
    let _ = store.remove(old_id);
    match res {
        Ok(p) => {
            let _ = store.insert(p);
        },
        Err(_) => {},
    }
}

/// The successfully parsed documents of a scan, in directory order; the
/// failures are skipped without aborting the scan.
pub open spec fn spec_successes(rs: Seq<Result<RenderedPost, Error>>) -> Seq<RenderedPost>
    decreases rs.len(),
{
    if rs.len() == 0 {
        Seq::empty()
    } else {
        let rest = spec_successes(rs.drop_last());
        match rs.last() {
            Ok(p) => rest.push(p),
            Err(_) => rest,
        }
    }
}

/// Keep the successfully parsed documents of a scan, in order, skipping
/// each failure.
pub fn collect_successes(results: Vec<Result<RenderedPost, Error>>) -> (r: Vec<RenderedPost>)
    ensures
        r@ == spec_successes(results@),
{
    let ghost all = results@;
    let mut rem = results;
    let mut r: Vec<RenderedPost> = Vec::new();
    let mut i: usize = 0;
    let n: usize = rem.len();
    proof {
        assert(all.subrange(0, 0) =~= Seq::<Result<RenderedPost, Error>>::empty());
        assert(r@ =~= spec_successes(all.subrange(0, 0)));
        assert(rem@ =~= all.skip(0));
    }
    while i < n
        invariant
            i <= n,
            n == all.len(),
            rem@ == all.skip(i as int),
            r@ == spec_successes(all.subrange(0, i as int)),
        decreases n - i,
    {
        let ghost pre = r@;
        let d = rem.remove(0);
        proof {
            assert(d == all[i as int]);
            assert(rem@ =~= all.skip(i as int + 1));
        }
        match d {
            Ok(p) => {
                r.push(p);
            },
            Err(_) => {},
        }
        proof {
            let snew = all.subrange(0, i as int + 1);
            assert(snew.drop_last() =~= all.subrange(0, i as int));
            assert(snew.last() == all[i as int]);
            match all[i as int] {
                Ok(p) => {
                    assert(r@ =~= pre.push(p));
                    assert(spec_successes(snew) == spec_successes(snew.drop_last()).push(p));
                },
                Err(_) => {
                    assert(spec_successes(snew) == spec_successes(snew.drop_last()));
                },
            }
        }
        i = i + 1;
    }
    proof {
        assert(all.subrange(0, n as int) =~= all);
    }
    r
}

/// No later document of the scan carries the same identifier.
pub open spec fn last_occurrence(docs: Seq<RenderedPost>, k: int) -> bool {
    forall|k2: int| k < k2 < docs.len() ==> (#[trigger] docs[k2]).id@ != docs[k].id@
}

/// Commit a full rescan under one exclusive access: the store is cleared
/// and every given document inserted, so it moves from its old complete
/// state to the new complete state in one step. Afterwards it holds
/// exactly the given documents — none of the old state survives — with a
/// later document superseding an earlier one under the same identifier.
pub fn apply_full_scan(store: &mut PostsStore, docs: Vec<RenderedPost>)
    requires
        old(store).wf(),
        forall|k: int| 0 <= k < docs@.len() ==> (#[trigger] docs@[k]).wf(),
    ensures
        final(store).wf(),
        forall|x: Seq<char>|
            #[trigger] final(store).spec_contains(x) <==> exists|k: int|
                0 <= k < docs@.len() && (#[trigger] docs@[k]).id@ == x,
        forall|k: int|
            0 <= k < docs@.len() && last_occurrence(docs@, k) ==> final(store).spec_at(
                (#[trigger] docs@[k]).id@,
            ) == docs@[k],
{
    store.clear();
    let ghost all = docs@;
    let mut rem = docs;
    let mut i: usize = 0;
    let n: usize = rem.len();
    proof {
        assert(rem@ =~= all.skip(0));
    }
    while i < n
        invariant
            i <= n,
            n == all.len(),
            rem@ == all.skip(i as int),
            store.wf(),
            forall|k: int| 0 <= k < all.len() ==> (#[trigger] all[k]).wf(),
            forall|x: Seq<char>|
                #[trigger] store.spec_contains(x) <==> exists|k: int|
                    0 <= k < i && (#[trigger] all[k]).id@ == x,
            forall|k: int|
                0 <= k < i && last_occurrence(all.subrange(0, i as int), k) ==> store.spec_at(
                    (#[trigger] all[k]).id@,
                ) == all[k],
        decreases n - i,
    {
        let ghost pre = *store;
        let d = rem.remove(0);
        proof {
            assert(d == all[i as int]);
            assert(rem@ =~= all.skip(i as int + 1));
        }
        let _ = store.insert(d);
        proof {
            assert(spec_inserted(pre, all[i as int], *store));
            assert forall|x: Seq<char>| #[trigger] store.spec_contains(x) implies exists|k: int|
                0 <= k < i + 1 && (#[trigger] all[k]).id@ == x by {
                if x == all[i as int].id@ {
                    assert(all[i as int].id@ == x);
                } else {
                    assert(pre.spec_contains(x));
                }
            }
            assert forall|x: Seq<char>|
                (exists|k: int| 0 <= k < i + 1 && (#[trigger] all[k]).id@ == x) implies
                #[trigger] store.spec_contains(x) by {
                let k = choose|k: int| 0 <= k < i + 1 && (#[trigger] all[k]).id@ == x;
                if k < i {
                    assert(pre.spec_contains(x));
                }
            }
            assert forall|k: int|
                0 <= k < i + 1 && last_occurrence(all.subrange(0, i as int + 1), k) implies
                store.spec_at((#[trigger] all[k]).id@) == all[k] by {
                let sub1 = all.subrange(0, i as int + 1);
                if k == i {
                    assert(store.spec_at(all[i as int].id@) == all[i as int]);
                } else {
                    assert(sub1[i as int] == all[i as int]);
                    assert(all[i as int].id@ != all[k].id@);
                    let sub0 = all.subrange(0, i as int);
                    assert forall|k2: int| k < k2 < sub0.len() implies (#[trigger] sub0[k2]).id@
                        != sub0[k].id@ by {
                        assert(sub1[k2] == sub0[k2] && sub1[k] == sub0[k]);
                    }
                    assert(last_occurrence(sub0, k));
                    assert(pre.spec_at(all[k].id@) == all[k]);
                    assert(pre.spec_contains(all[k].id@));
                    assert(store.spec_at(all[k].id@) == pre.spec_at(all[k].id@));
                }
            }
        }
        i = i + 1;
    }
    proof {
        assert(all.subrange(0, n as int) =~= all);
        assert forall|k: int|
            0 <= k < all.len() && last_occurrence(all, k) implies store.spec_at(
            (#[trigger] all[k]).id@,
        ) == all[k] by {
            assert(last_occurrence(all.subrange(0, n as int), k));
        }
    }
}

} // verus!

