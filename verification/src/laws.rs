//! Guarantees that span several operations, stated and proved once: the
//! distinctness of generated identifiers, what deletion leaves behind, and
//! what the session filter selects.

use crate::checkpoint::ManagerView;
use crate::checkpoint::checkpoint_created;
use crate::checkpoint::checkpoint_deleted;
use crate::checkpoint::filter_by_session;
use crate::ids::lemma_id_injective;
use crate::ids::spec_id;
use crate::types::CheckpointView;
use vstd::prelude::*;

verus! {

/// No two records of the collection share an identifier.
pub open spec fn ids_distinct(cs: Seq<CheckpointView>) -> bool {
    forall|i: int, j: int|
        0 <= i < j < cs.len() ==> (#[trigger] cs[i]).id != (#[trigger] cs[j]).id
}

/// Two checkpoint creations, the second starting no earlier in the counter
/// than where the first ended, never return the same identifier — however
/// many other operations ran in between.
pub proof fn lemma_created_ids_distinct(
    pre1: ManagerView,
    post1: ManagerView,
    r1: CheckpointView,
    pre2: ManagerView,
    post2: ManagerView,
    r2: CheckpointView,
)
    requires
        checkpoint_created(pre1, post1, r1),
        checkpoint_created(pre2, post2, r2),
        post1.id_counter <= pre2.id_counter,
    ensures
        r1.id != r2.id,
{
    let k1 = choose|k: nat| pre1.id_counter <= k < post1.id_counter && r1.id == spec_id(k);
    let k2 = choose|k: nat| pre2.id_counter <= k < post2.id_counter && r2.id == spec_id(k);
    lemma_id_injective(k1, k2);
}

/// Along a run of creation steps, each starting no earlier in the counter
/// than its predecessor ended, counters only grow.
proof fn lemma_counters_grow(
    steps: Seq<(ManagerView, ManagerView, CheckpointView)>,
    i: int,
    j: int,
)
    requires
        forall|l: int|
            0 <= l < steps.len() ==> checkpoint_created(
                (#[trigger] steps[l]).0,
                steps[l].1,
                steps[l].2,
            ),
        forall|l: int|
            0 <= l < steps.len() - 1 ==> (#[trigger] steps[l]).1.id_counter <= steps[l
                + 1].0.id_counter,
        0 <= i < j < steps.len(),
    ensures
        steps[i].1.id_counter <= steps[j].0.id_counter,
    decreases j - i,
{
    if i + 1 < j {
        lemma_counters_grow(steps, i, j - 1);
        assert(checkpoint_created(steps[j - 1].0, steps[j - 1].1, steps[j - 1].2));
    }
}

/// Every sequence of checkpoint creations returns pairwise distinct
/// identifiers.
pub proof fn lemma_created_ids_pairwise_distinct(
    steps: Seq<(ManagerView, ManagerView, CheckpointView)>,
)
    requires
        forall|l: int|
            0 <= l < steps.len() ==> checkpoint_created(
                (#[trigger] steps[l]).0,
                steps[l].1,
                steps[l].2,
            ),
        forall|l: int|
            0 <= l < steps.len() - 1 ==> (#[trigger] steps[l]).1.id_counter <= steps[l
                + 1].0.id_counter,
    ensures
        forall|i: int, j: int|
            0 <= i < j < steps.len() ==> (#[trigger] steps[i]).2.id != (#[trigger] steps[j]).2.id,
{
    assert forall|i: int, j: int|
        0 <= i < j < steps.len() implies (#[trigger] steps[i]).2.id
        != (#[trigger] steps[j]).2.id by {
        lemma_counters_grow(steps, i, j);
        lemma_created_ids_distinct(
            steps[i].0,
            steps[i].1,
            steps[i].2,
            steps[j].0,
            steps[j].1,
            steps[j].2,
        );
    }
}

/// Appending a record whose identifier is fresh keeps the collection's
/// identifiers pairwise distinct.
pub proof fn lemma_push_preserves_distinct(
    pre: Seq<CheckpointView>,
    post: Seq<CheckpointView>,
    r: CheckpointView,
)
    requires
        ids_distinct(pre),
        post == pre.push(r),
        forall|i: int| 0 <= i < pre.len() ==> (#[trigger] pre[i]).id != r.id,
    ensures
        ids_distinct(post),
{
    assert forall|i: int, j: int|
        0 <= i < j < post.len() implies (#[trigger] post[i]).id != (#[trigger] post[j]).id by {
        if j < pre.len() {
            assert(post[i] == pre[i]);
            assert(post[j] == pre[j]);
        } else {
            assert(post[i] == pre[i]);
            assert(post[j] == r);
        }
    }
}

/// Deletion keeps the collection's identifiers pairwise distinct.
pub proof fn lemma_delete_preserves_distinct(
    pre: Seq<CheckpointView>,
    post: Seq<CheckpointView>,
    id: Seq<char>,
)
    requires
        ids_distinct(pre),
        checkpoint_deleted(pre, post, id),
    ensures
        ids_distinct(post),
{
    let w = choose|i: int|
        0 <= i < pre.len() && (#[trigger] pre[i]).id == id && (forall|j: int|
            0 <= j < i ==> pre[j].id != id) && post == pre.remove(i);
    assert forall|i: int, j: int|
        0 <= i < j < post.len() implies (#[trigger] post[i]).id != (#[trigger] post[j]).id by {
        assert(post[i] == if i < w {
            pre[i]
        } else {
            pre[i + 1]
        });
        assert(post[j] == if j < w {
            pre[j]
        } else {
            pre[j + 1]
        });
    }
}

/// Once a checkpoint is deleted from a collection with distinct identifiers,
/// its identifier is gone: no later listing of that collection contains it.
pub proof fn lemma_deleted_id_absent(
    pre: Seq<CheckpointView>,
    post: Seq<CheckpointView>,
    id: Seq<char>,
)
    requires
        ids_distinct(pre),
        checkpoint_deleted(pre, post, id),
    ensures
        forall|i: int| 0 <= i < post.len() ==> (#[trigger] post[i]).id != id,
{
    let w = choose|i: int|
        0 <= i < pre.len() && (#[trigger] pre[i]).id == id && (forall|j: int|
            0 <= j < i ==> pre[j].id != id) && post == pre.remove(i);
    assert forall|i: int| 0 <= i < post.len() implies (#[trigger] post[i]).id != id by {
        if i < w {
            assert(post[i] == pre[i]);
        } else {
            assert(post[i] == pre[i + 1]);
            if pre[i + 1].id == id {
                assert(pre[w].id == pre[i + 1].id);
            }
        }
    }
}

/// One step in the life of the checkpoint collection.
pub enum CollectionStep {
    Created { record: CheckpointView },
    Deleted { id: Seq<char> },
    Untouched,
}

/// The collection with the first record carrying `id` removed; without such a
/// record, the collection itself.
pub open spec fn remove_first(cs: Seq<CheckpointView>, id: Seq<char>) -> Seq<CheckpointView>
    decreases cs.len(),
{
    if cs.len() == 0 {
        cs
    } else if cs[0].id == id {
        cs.skip(1)
    } else {
        seq![cs[0]] + remove_first(cs.skip(1), id)
    }
}

/// Replays a history onto a starting collection: each creation appends its
/// record, each deletion removes the first record with its identifier.
pub open spec fn replay(
    init: Seq<CheckpointView>,
    steps: Seq<CollectionStep>,
) -> Seq<CheckpointView>
    decreases steps.len(),
{
    if steps.len() == 0 {
        init
    } else {
        let prefix = replay(init, steps.drop_last());
        match steps.last() {
            CollectionStep::Created { record } => prefix.push(record),
            CollectionStep::Deleted { id } => remove_first(prefix, id),
            CollectionStep::Untouched => prefix,
        }
    }
}

/// What one step means for the checkpoint collection.  Creation and deletion
/// are the shapes `create_checkpoint` and a successful `delete_checkpoint`
/// ensure; every other operation leaves the collection untouched.
pub open spec fn step_holds(
    pre: Seq<CheckpointView>,
    post: Seq<CheckpointView>,
    step: CollectionStep,
) -> bool {
    match step {
        CollectionStep::Created { record } => post == pre.push(record),
        CollectionStep::Deleted { id } => checkpoint_deleted(pre, post, id),
        CollectionStep::Untouched => post == pre,
    }
}

/// Removing the first match is what a successful deletion does.
proof fn lemma_remove_first_at(cs: Seq<CheckpointView>, id: Seq<char>, i: int)
    requires
        0 <= i < cs.len(),
        cs[i].id == id,
        forall|j: int| 0 <= j < i ==> cs[j].id != id,
    ensures
        remove_first(cs, id) == cs.remove(i),
    decreases i,
{
    if i == 0 {
        assert(cs.skip(1) =~= cs.remove(0));
    } else {
        let t = cs.skip(1);
        assert(t[i - 1].id == id);
        assert forall|j: int| 0 <= j < i - 1 implies t[j].id != id by {
            assert(t[j] == cs[j + 1]);
        }
        lemma_remove_first_at(t, id, i - 1);
        assert(seq![cs[0]] + t.remove(i - 1) =~= cs.remove(i));
    }
}

proof fn lemma_deleted_is_remove_first(
    pre: Seq<CheckpointView>,
    post: Seq<CheckpointView>,
    id: Seq<char>,
)
    requires
        checkpoint_deleted(pre, post, id),
    ensures
        post == remove_first(pre, id),
{
    let w = choose|i: int|
        0 <= i < pre.len() && (#[trigger] pre[i]).id == id && (forall|j: int|
            0 <= j < i ==> pre[j].id != id) && post == pre.remove(i);
    lemma_remove_first_at(pre, id, w);
}

/// The collection a manager ends with is exactly the replay of its history
/// over the collection it started with: every checkpoint ever created, minus
/// those deleted, in creation order.
pub proof fn lemma_collection_is_replayed_history(
    collections: Seq<Seq<CheckpointView>>,
    steps: Seq<CollectionStep>,
)
    requires
        collections.len() == steps.len() + 1,
        forall|i: int|
            0 <= i < steps.len() ==> step_holds(
                collections[i],
                collections[i + 1],
                #[trigger] steps[i],
            ),
    ensures
        collections.last() == replay(collections.first(), steps),
    decreases steps.len(),
{
    if steps.len() > 0 {
        let n = steps.len() as int;
        let shorter = collections.drop_last();
        assert forall|i: int|
            0 <= i < steps.drop_last().len() implies step_holds(
            shorter[i],
            shorter[i + 1],
            #[trigger] steps.drop_last()[i],
        ) by {
            assert(shorter[i] == collections[i]);
            assert(shorter[i + 1] == collections[i + 1]);
            assert(steps.drop_last()[i] == steps[i]);
        }
        lemma_collection_is_replayed_history(shorter, steps.drop_last());
        assert(shorter.first() == collections.first());
        assert(shorter.last() == collections[n - 1]);
        assert(step_holds(collections[n - 1], collections[n], steps[n - 1]));
        assert(steps.last() == steps[n - 1]);
        match steps.last() {
            CollectionStep::Created { record } => {},
            CollectionStep::Deleted { id } => {
                lemma_deleted_is_remove_first(collections[n - 1], collections[n], id);
            },
            CollectionStep::Untouched => {},
        }
    }
}

/// The session filter selects exactly the checkpoints of that session: every
/// record it returns carries the session and stands in the collection, and
/// every record of the collection that carries the session is returned.
pub proof fn lemma_filter_by_session_exact(cs: Seq<CheckpointView>, sid: Seq<char>)
    ensures
        forall|i: int|
            0 <= i < filter_by_session(cs, sid).len() ==> (#[trigger] filter_by_session(cs, sid)[i]).session_id
                == sid && cs.contains(filter_by_session(cs, sid)[i]),
        forall|i: int|
            0 <= i < cs.len() && (#[trigger] cs[i]).session_id == sid ==> filter_by_session(
                cs,
                sid,
            ).contains(cs[i]),
    decreases cs.len(),
{
    if cs.len() > 0 {
        let t = cs.drop_last();
        lemma_filter_by_session_exact(t, sid);
        let f = filter_by_session(cs, sid);
        let ft = filter_by_session(t, sid);
        assert forall|i: int| 0 <= i < f.len() implies (#[trigger] f[i]).session_id == sid
            && cs.contains(f[i]) by {
            if i < ft.len() {
                assert(f[i] == ft[i]);
                let w = choose|j: int| 0 <= j < t.len() && t[j] == ft[i];
                assert(cs[w] == ft[i]);
            } else {
                assert(f[i] == cs.last());
                assert(cs[cs.len() - 1] == cs.last());
            }
        }
        assert forall|i: int|
            0 <= i < cs.len() && (#[trigger] cs[i]).session_id == sid implies f.contains(
            cs[i],
        ) by {
            if i < cs.len() - 1 {
                assert(t[i] == cs[i]);
                let w = choose|j: int| 0 <= j < ft.len() && ft[j] == cs[i];
                assert(f[w] == cs[i]);
            } else {
                assert(cs[i] == cs.last());
                assert(f[f.len() - 1] == cs.last());
            }
        }
    }
}

} // verus!
