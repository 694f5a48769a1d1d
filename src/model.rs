use vstd::prelude::*;

use crate::state::BlogView;

verus! {

/// The abstract state of the store: the id counter and the records keyed by
/// (owner, id).
pub ghost struct StoreModel {
    pub latest_id: u64,
    pub records: Map<(Seq<char>, u64), BlogView>,
}

/// Every record carries the id of its key, ids lie in `1..=latest_id`, and no
/// id is held under two owners.
pub open spec fn model_wf(m: StoreModel) -> bool {
    &&& forall|k: (Seq<char>, u64)| #[trigger]
        m.records.contains_key(k) ==> m.records[k].id == k.1 && 1 <= k.1 <= m.latest_id
    &&& forall|k1: (Seq<char>, u64), k2: (Seq<char>, u64)|
        #![trigger m.records.contains_key(k1), m.records.contains_key(k2)]
        m.records.contains_key(k1) && m.records.contains_key(k2) && k1.1 == k2.1 ==> k1 == k2
}

/// The state right after deployment: counter at zero, no records.
pub open spec fn initial_model() -> StoreModel {
    StoreModel { latest_id: 0, records: Map::empty() }
}

/// The id that the next create hands out.
pub open spec fn next_id(m: StoreModel) -> u64 {
    (m.latest_id + 1) as u64
}

/// A fresh record: both timestamps are the creation time.
pub open spec fn new_blog(id: u64, title: Seq<char>, content: Seq<char>, now: u64) -> BlogView {
    BlogView { id, title, content, created_at: now, updated_at: now }
}

/// Create: allocate the next id and store the record under (owner, id).
pub open spec fn create_model(
    m: StoreModel,
    owner: Seq<char>,
    title: Seq<char>,
    content: Seq<char>,
    now: u64,
) -> StoreModel {
    StoreModel {
        latest_id: next_id(m),
        records: m.records.insert((owner, next_id(m)), new_blog(next_id(m), title, content, now)),
    }
}

/// Get: the record under (owner, id), if any.
pub open spec fn get_model(m: StoreModel, owner: Seq<char>, id: u64) -> Option<BlogView> {
    if m.records.contains_key((owner, id)) {
        Some(m.records[(owner, id)])
    } else {
        None
    }
}

/// An existing record with new title and content, refreshed at `now`; id and
/// creation time stay.
pub open spec fn edited_blog(b: BlogView, title: Seq<char>, content: Seq<char>, now: u64) -> BlogView {
    BlogView { title, content, updated_at: now, ..b }
}

/// Update: `None` (not found) where no record is under (owner, id).
pub open spec fn update_model(
    m: StoreModel,
    owner: Seq<char>,
    id: u64,
    title: Seq<char>,
    content: Seq<char>,
    now: u64,
) -> Option<StoreModel> {
    match get_model(m, owner, id) {
        Some(b) => Some(
            StoreModel {
                records: m.records.insert((owner, id), edited_blog(b, title, content, now)),
                ..m
            },
        ),
        None => None,
    }
}

/// Delete: the key is gone afterwards, whether or not it was there.
pub open spec fn delete_model(m: StoreModel, owner: Seq<char>, id: u64) -> StoreModel {
    StoreModel { records: m.records.remove((owner, id)), ..m }
}

} // verus!
