use vstd::prelude::*;

use crate::model::{
    create_model, delete_model, get_model, initial_model, model_wf, next_id, update_model,
    StoreModel,
};
use crate::state::BlogView;

verus! {

/// One create request: owner, title, content and time.
pub type CreateArgs = (Seq<char>, Seq<char>, Seq<char>, u64);

/// The state after running the creates of `ops` in order from `m`.
pub open spec fn run_creates(m: StoreModel, ops: Seq<CreateArgs>) -> StoreModel
    decreases ops.len(),
{
    if ops.len() == 0 {
        m
    } else {
        let p = run_creates(m, ops.drop_last());
        let o = ops.last();
        create_model(p, o.0, o.1, o.2, o.3)
    }
}

/// The ids that the creates of `ops` hand out, in order.
pub open spec fn created_ids(m: StoreModel, ops: Seq<CreateArgs>) -> Seq<u64>
    decreases ops.len(),
{
    if ops.len() == 0 {
        Seq::empty()
    } else {
        created_ids(m, ops.drop_last()).push(next_id(run_creates(m, ops.drop_last())))
    }
}

proof fn lemma_run_creates(m: StoreModel, ops: Seq<CreateArgs>)
    requires
        m.latest_id + ops.len() <= u64::MAX,
    ensures
        run_creates(m, ops).latest_id == m.latest_id + ops.len(),
        created_ids(m, ops).len() == ops.len(),
        forall|i: int| 0 <= i < ops.len() ==> #[trigger] created_ids(m, ops)[i] == m.latest_id + 1 + i,
    decreases ops.len(),
{
    if ops.len() > 0 {
        lemma_run_creates(m, ops.drop_last());
    }
}

/// Ids increase: over any run of creates, by any owners, the ids handed out
/// are consecutive from the counter on, so strictly increasing and pairwise
/// distinct; from a fresh store they start at 1.
pub proof fn lemma_ids_increase(m: StoreModel, ops: Seq<CreateArgs>)
    requires
        m.latest_id + ops.len() <= u64::MAX,
    ensures
        created_ids(m, ops).len() == ops.len(),
        forall|i: int| 0 <= i < ops.len() ==> #[trigger] created_ids(m, ops)[i] == m.latest_id + 1 + i,
        forall|i: int, j: int|
            0 <= i < j < ops.len() ==> created_ids(m, ops)[i] < created_ids(m, ops)[j],
        m == initial_model() && ops.len() > 0 ==> created_ids(m, ops)[0] == 1,
{
    lemma_run_creates(m, ops);
}

/// Every create, update and delete keeps the model well formed.
pub proof fn lemma_operations_keep_wf(
    m: StoreModel,
    owner: Seq<char>,
    id: u64,
    title: Seq<char>,
    content: Seq<char>,
    now: u64,
)
    requires
        model_wf(m),
    ensures
        m.latest_id < u64::MAX ==> model_wf(create_model(m, owner, title, content, now)),
        update_model(m, owner, id, title, content, now) is Some ==> model_wf(
            update_model(m, owner, id, title, content, now)->Some_0,
        ),
        model_wf(delete_model(m, owner, id)),
{
    if m.latest_id < u64::MAX {
        let m1 = create_model(m, owner, title, content, now);
        assert forall|k1: (Seq<char>, u64), k2: (Seq<char>, u64)|
            #![trigger m1.records.contains_key(k1), m1.records.contains_key(k2)]
            m1.records.contains_key(k1) && m1.records.contains_key(k2) && k1.1 == k2.1 implies k1
            == k2 by {
            if k1 != (owner, next_id(m)) {
                assert(m.records.contains_key(k1));
            }
            if k2 != (owner, next_id(m)) {
                assert(m.records.contains_key(k2));
            }
        }
    }
    let m3 = delete_model(m, owner, id);
    assert forall|k1: (Seq<char>, u64), k2: (Seq<char>, u64)|
        #![trigger m3.records.contains_key(k1), m3.records.contains_key(k2)]
        m3.records.contains_key(k1) && m3.records.contains_key(k2) && k1.1 == k2.1 implies k1
        == k2 by {
        assert(m.records.contains_key(k1) && m.records.contains_key(k2));
    }
    if update_model(m, owner, id, title, content, now) is Some {
        let m2 = update_model(m, owner, id, title, content, now)->Some_0;
        assert forall|k1: (Seq<char>, u64), k2: (Seq<char>, u64)|
            #![trigger m2.records.contains_key(k1), m2.records.contains_key(k2)]
            m2.records.contains_key(k1) && m2.records.contains_key(k2) && k1.1 == k2.1 implies k1
            == k2 by {
            assert(m.records.contains_key(k1) && m.records.contains_key(k2));
        }
    }
}

/// Owners are isolated: a record filed under `a` can be neither read,
/// updated nor deleted through another owner `b`, even at the same id.
pub proof fn lemma_owner_isolation(
    m: StoreModel,
    a: Seq<char>,
    b: Seq<char>,
    id: u64,
    title: Seq<char>,
    content: Seq<char>,
    now: u64,
)
    requires
        model_wf(m),
        a != b,
        m.records.contains_key((a, id)),
    ensures
        get_model(m, b, id) is None,
        update_model(m, b, id, title, content, now) is None,
        get_model(delete_model(m, b, id), a, id) == get_model(m, a, id),
{
    assert(!m.records.contains_key((b, id)));
}

/// Isolation right after a create: the new record of `a` is invisible to any
/// other owner `b`, whose update of that id fails and whose delete of it
/// leaves it in place.
pub proof fn lemma_created_record_isolated(
    m: StoreModel,
    a: Seq<char>,
    b: Seq<char>,
    t1: Seq<char>,
    c1: Seq<char>,
    now1: u64,
    t2: Seq<char>,
    c2: Seq<char>,
    now2: u64,
)
    requires
        model_wf(m),
        m.latest_id < u64::MAX,
        a != b,
    ensures
        ({
            let m1 = create_model(m, a, t1, c1, now1);
            let k = next_id(m);
            &&& get_model(m1, b, k) is None
            &&& update_model(m1, b, k, t2, c2, now2) is None
            &&& get_model(delete_model(m1, b, k), a, k) == get_model(m1, a, k)
            &&& get_model(m1, a, k) is Some
        }),
{
    let m1 = create_model(m, a, t1, c1, now1);
    lemma_operations_keep_wf(m, a, 0, t1, c1, now1);
    lemma_owner_isolation(m1, a, b, next_id(m), t2, c2, now2);
}

/// An update after a create keeps the id and the creation time, and takes
/// the new title, content and update time.
pub proof fn lemma_update_keeps_identity(
    m: StoreModel,
    owner: Seq<char>,
    t1: Seq<char>,
    c1: Seq<char>,
    now1: u64,
    t2: Seq<char>,
    c2: Seq<char>,
    now2: u64,
)
    requires
        m.latest_id < u64::MAX,
    ensures
        ({
            let k = next_id(m);
            let u = update_model(create_model(m, owner, t1, c1, now1), owner, k, t2, c2, now2);
            &&& u is Some
            &&& get_model(u->Some_0, owner, k) == Some(
                BlogView { id: k, title: t2, content: c2, created_at: now1, updated_at: now2 },
            )
        }),
{
}

/// After a delete, a get of the same key finds nothing.
pub proof fn lemma_delete_then_get(m: StoreModel, owner: Seq<char>, id: u64)
    ensures
        get_model(delete_model(m, owner, id), owner, id) is None,
{
}

/// Deleting twice is the same as deleting once (and a delete never fails).
pub proof fn lemma_delete_idempotent(m: StoreModel, owner: Seq<char>, id: u64)
    ensures
        delete_model(delete_model(m, owner, id), owner, id) == delete_model(m, owner, id),
{
    assert(delete_model(delete_model(m, owner, id), owner, id).records =~= delete_model(
        m,
        owner,
        id,
    ).records);
}

/// An update of a key that holds no record fails as not found; the state is
/// then left as it was (see the contract of `update_blog`).
pub proof fn lemma_update_absent_fails(
    m: StoreModel,
    owner: Seq<char>,
    id: u64,
    title: Seq<char>,
    content: Seq<char>,
    now: u64,
)
    requires
        !m.records.contains_key((owner, id)),
    ensures
        update_model(m, owner, id, title, content, now) is None,
        get_model(m, owner, id) is None,
{
}

} // verus!
