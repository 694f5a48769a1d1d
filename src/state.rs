use vstd::prelude::*;

use crate::model::{
    create_model, delete_model, edited_blog, get_model, initial_model, model_wf, new_blog,
    next_id, update_model, StoreModel,
};

verus! {

/// A stored post, as kept under its owner's namespace.
#[derive(Debug, PartialEq, Eq)]
pub struct Blog {
    pub id: u64,
    pub title: String,
    pub content: String,
    pub created_at: u64,
    pub updated_at: u64,
}

/// The mathematical value of a [`Blog`].
pub ghost struct BlogView {
    pub id: u64,
    pub title: Seq<char>,
    pub content: Seq<char>,
    pub created_at: u64,
    pub updated_at: u64,
}

impl View for Blog {
    type V = BlogView;

    open spec fn view(&self) -> BlogView {
        BlogView {
            id: self.id,
            title: self.title@,
            content: self.content@,
            created_at: self.created_at,
            updated_at: self.updated_at,
        }
    }
}

impl Clone for Blog {
    fn clone(&self) -> (r: Blog)
        ensures
            r@ == self@,
    {
        Blog {
            id: self.id,
            title: self.title.clone(),
            content: self.content.clone(),
            created_at: self.created_at,
            updated_at: self.updated_at,
        }
    }
}

/// One stored record together with the owner it is filed under.
struct Entry {
    owner: String,
    blog: Blog,
}

/// Entry `i` of `s` is filed under key `k`.
spec fn at_key(s: Seq<Entry>, k: (Seq<char>, u64), i: int) -> bool {
    0 <= i < s.len() && s[i].owner@ == k.0 && s[i].blog.id == k.1
}

/// The records that a sequence of entries holds, keyed by (owner, id).
spec fn records_of(s: Seq<Entry>) -> Map<(Seq<char>, u64), BlogView> {
    Map::new(
        |k: (Seq<char>, u64)| exists|i: int| at_key(s, k, i),
        |k: (Seq<char>, u64)| s[choose|i: int| at_key(s, k, i)].blog@,
    )
}

/// Ids strictly increase along the sequence, so each id is held once.
spec fn ids_increasing(s: Seq<Entry>) -> bool {
    forall|i: int, j: int| 0 <= i < j < s.len() ==> s[i].blog.id < s[j].blog.id
}

proof fn lemma_lookup(s: Seq<Entry>, k: (Seq<char>, u64), i: int)
    requires
        ids_increasing(s),
        at_key(s, k, i),
    ensures
        records_of(s).contains_key(k),
        records_of(s)[k] == s[i].blog@,
{
    assert(exists|j: int| at_key(s, k, j));
    let j = choose|j: int| at_key(s, k, j);
    if j < i {
        assert(s[j].blog.id < s[i].blog.id);
    } else if i < j {
        assert(s[i].blog.id < s[j].blog.id);
    }
}

proof fn lemma_push(s: Seq<Entry>, e: Entry)
    requires
        ids_increasing(s),
        forall|i: int| 0 <= i < s.len() ==> s[i].blog.id < e.blog.id,
    ensures
        ids_increasing(s.push(e)),
        records_of(s.push(e)) =~= records_of(s).insert((e.owner@, e.blog.id), e.blog@),
{
    let t = s.push(e);
    let ke = (e.owner@, e.blog.id);
    assert(at_key(t, ke, s.len() as int));
    lemma_lookup(t, ke, s.len() as int);
    let m2 = records_of(s).insert(ke, e.blog@);
    assert forall|k: (Seq<char>, u64)| #![trigger records_of(t).contains_key(k)] #![trigger m2.contains_key(k)]
        k != ke implies (records_of(t).contains_key(k)
        == records_of(s).contains_key(k)) && (records_of(s).contains_key(k) ==> records_of(t)[k]
        == records_of(s)[k]) by {
        if records_of(t).contains_key(k) {
            let i = choose|i: int| at_key(t, k, i);
            assert(at_key(s, k, i));
        }
        if records_of(s).contains_key(k) {
            let i = choose|i: int| at_key(s, k, i);
            assert(at_key(t, k, i));
            lemma_lookup(s, k, i);
            lemma_lookup(t, k, i);
        }
    }
}

proof fn lemma_set(s: Seq<Entry>, i: int, e: Entry)
    requires
        ids_increasing(s),
        0 <= i < s.len(),
        e.owner@ == s[i].owner@,
        e.blog.id == s[i].blog.id,
    ensures
        ids_increasing(s.update(i, e)),
        records_of(s.update(i, e)) =~= records_of(s).insert((e.owner@, e.blog.id), e.blog@),
{
    let t = s.update(i, e);
    let ke = (e.owner@, e.blog.id);
    assert(at_key(t, ke, i));
    lemma_lookup(t, ke, i);
    let m2 = records_of(s).insert(ke, e.blog@);
    assert forall|k: (Seq<char>, u64)| #![trigger records_of(t).contains_key(k)] #![trigger m2.contains_key(k)]
        k != ke implies (records_of(t).contains_key(k)
        == records_of(s).contains_key(k)) && (records_of(s).contains_key(k) ==> records_of(t)[k]
        == records_of(s)[k]) by {
        if records_of(t).contains_key(k) {
            let j = choose|j: int| at_key(t, k, j);
            assert(at_key(s, k, j));
        }
        if records_of(s).contains_key(k) {
            let j = choose|j: int| at_key(s, k, j);
            assert(at_key(t, k, j));
            lemma_lookup(s, k, j);
            lemma_lookup(t, k, j);
        }
    }
}

proof fn lemma_remove(s: Seq<Entry>, i: int)
    requires
        ids_increasing(s),
        0 <= i < s.len(),
    ensures
        ids_increasing(s.remove(i)),
        records_of(s.remove(i)) =~= records_of(s).remove((s[i].owner@, s[i].blog.id)),
{
    let t = s.remove(i);
    let ki = (s[i].owner@, s[i].blog.id);
    assert forall|a: int, b: int| 0 <= a < b < t.len() implies t[a].blog.id < t[b].blog.id by {
        if a < i {
            if b < i {
            } else {
                assert(t[b] == s[b + 1]);
            }
        } else {
            assert(t[a] == s[a + 1] && t[b] == s[b + 1]);
        }
    }
    assert(!records_of(t).contains_key(ki)) by {
        if records_of(t).contains_key(ki) {
            let j = choose|j: int| at_key(t, ki, j);
            if j < i {
                assert(s[j].blog.id < s[i].blog.id);
            } else {
                assert(t[j] == s[j + 1]);
                assert(s[i].blog.id < s[j + 1].blog.id);
            }
        }
    }
    let m2 = records_of(s).remove(ki);
    assert forall|k: (Seq<char>, u64)| #![trigger records_of(t).contains_key(k)] #![trigger m2.contains_key(k)]
        k != ki implies (records_of(t).contains_key(k)
        == records_of(s).contains_key(k)) && (records_of(s).contains_key(k) ==> records_of(t)[k]
        == records_of(s)[k]) by {
        if records_of(t).contains_key(k) {
            let j = choose|j: int| at_key(t, k, j);
            if j < i {
                assert(at_key(s, k, j));
            } else {
                assert(t[j] == s[j + 1]);
                assert(at_key(s, k, j + 1));
            }
        }
        if records_of(s).contains_key(k) {
            let j = choose|j: int| at_key(s, k, j);
            lemma_lookup(s, k, j);
            if j < i {
                assert(at_key(t, k, j));
                lemma_lookup(t, k, j);
            } else {
                assert(j != i);
                assert(t[j - 1] == s[j]);
                assert(at_key(t, k, j - 1));
                lemma_lookup(t, k, j - 1);
            }
        }
    }
}

/// Pair `i` of `p` is filed under key `k`.
spec fn parts_at_key(p: Seq<(String, Blog)>, k: (Seq<char>, u64), i: int) -> bool {
    0 <= i < p.len() && p[i].0@ == k.0 && p[i].1.id == k.1
}

/// The records that a sequence of (owner, record) pairs holds.
pub closed spec fn parts_records(p: Seq<(String, Blog)>) -> Map<(Seq<char>, u64), BlogView> {
    Map::new(
        |k: (Seq<char>, u64)| exists|i: int| parts_at_key(p, k, i),
        |k: (Seq<char>, u64)| p[choose|i: int| parts_at_key(p, k, i)].1@,
    )
}

/// Ids strictly increase along `p` and lie in `1..=latest`.
pub open spec fn parts_valid(latest: u64, p: Seq<(String, Blog)>) -> bool {
    &&& forall|a: int, b: int| 0 <= a < b < p.len() ==> p[a].1.id < p[b].1.id
    &&& forall|i: int| 0 <= i < p.len() ==> 1 <= #[trigger] p[i].1.id <= latest
}

/// The record store: the id counter and every record, kept in increasing
/// order of id (the order in which they were created).
pub struct BlogStore {
    latest_blog_id: u64,
    entries: Vec<Entry>,
}

impl View for BlogStore {
    type V = StoreModel;

    closed spec fn view(&self) -> StoreModel {
        StoreModel { latest_id: self.latest_blog_id, records: records_of(self.entries@) }
    }
}

impl BlogStore {
    /// The store's invariant: ids increase along the entries and none exceeds
    /// the counter or is zero.
    pub closed spec fn wf(&self) -> bool {
        &&& ids_increasing(self.entries@)
        &&& forall|i: int|
            0 <= i < self.entries@.len() ==> 1 <= #[trigger] self.entries@[i].blog.id
                <= self.latest_blog_id
    }

    /// A well-formed store has a well-formed model.
    pub proof fn lemma_wf(&self)
        requires
            self.wf(),
        ensures
            model_wf(self@),
    {
        let s = self.entries@;
        assert forall|k: (Seq<char>, u64)| #[trigger] records_of(s).contains_key(k) implies records_of(
            s,
        )[k].id == k.1 && 1 <= k.1 <= self.latest_blog_id by {
            let i = choose|i: int| at_key(s, k, i);
            lemma_lookup(s, k, i);
        }
        assert forall|k1: (Seq<char>, u64), k2: (Seq<char>, u64)|
            records_of(s).contains_key(k1) && records_of(s).contains_key(k2) && k1.1
                == k2.1 implies k1 == k2 by {
            let i = choose|i: int| at_key(s, k1, i);
            let j = choose|j: int| at_key(s, k2, j);
            if i < j {
                assert(s[i].blog.id < s[j].blog.id);
            } else if j < i {
                assert(s[j].blog.id < s[i].blog.id);
            }
        }
    }

    /// An empty store with the counter at zero.
    pub fn new() -> (r: BlogStore)
        ensures
            r.wf(),
            r@ == initial_model(),
    {
        let r = BlogStore { latest_blog_id: 0, entries: Vec::new() };
        assert(r@.records =~= Map::empty());
        r
    }

    /// The last id handed out (zero before the first create).
    pub fn latest_blog_id(&self) -> (r: u64)
        ensures
            r == self@.latest_id,
    {
        self.latest_blog_id
    }

    /// Position of the entry filed under (owner, id).
    fn find(&self, owner: &String, id: u64) -> (r: Option<usize>)
        requires
            self.wf(),
        ensures
            match r {
                Some(i) => at_key(self.entries@, (owner@, id), i as int),
                None => !self@.records.contains_key((owner@, id)),
            },
    {
        let mut i: usize = 0;
        while i < self.entries.len()
            invariant
                i <= self.entries@.len(),
                forall|j: int| 0 <= j < i ==> !at_key(self.entries@, (owner@, id), j),
            decreases self.entries@.len() - i,
        {
            if self.entries[i].blog.id == id && self.entries[i].owner == *owner {
                return Some(i);
            }
            i = i + 1;
        }
        None
    }

    /// The record under (owner, id), if there is one.
    pub fn get(&self, owner: &String, id: u64) -> (r: Option<Blog>)
        requires
            self.wf(),
        ensures
            match r {
                Some(b) => get_model(self@, owner@, id) == Some(b@),
                None => get_model(self@, owner@, id) is None,
            },
    {
        match self.find(owner, id) {
            Some(i) => {
                proof {
                    lemma_lookup(self.entries@, (owner@, id), i as int);
                }
                Some(self.entries[i].blog.clone())
            },
            None => None,
        }
    }

    /// Advances the counter by one and returns its new value: the id for the
    /// next record. Ids start at 1 and are never handed out twice.
    fn allocate_id(&mut self) -> (id: u64)
        requires
            old(self).wf(),
            old(self).latest_blog_id < u64::MAX,
        ensures
            final(self).wf(),
            id == next_id(old(self)@),
            final(self).latest_blog_id == id,
            final(self).entries == old(self).entries,
    {
        self.latest_blog_id = self.latest_blog_id + 1;
        self.latest_blog_id
    }

    /// Takes the next id, files a new record under (owner, id), and returns
    /// the id.
    pub fn create(&mut self, owner: String, title: String, content: String, now: u64) -> (id: u64)
        requires
            old(self).wf(),
            old(self)@.latest_id < u64::MAX,
        ensures
            final(self).wf(),
            id == next_id(old(self)@),
            final(self)@ == create_model(old(self)@, owner@, title@, content@, now),
    {
        let ghost s = self.entries@;
        let id = self.allocate_id();
        let blog = Blog { id, title, content, created_at: now, updated_at: now };
        let ghost bv = blog@;
        let ghost o = owner@;
        let e = Entry { owner, blog };
        proof {
            lemma_push(s, e);
        }
        self.entries.push(e);
        assert(bv == new_blog(id, title@, content@, now));
        assert(self@.records =~= create_model(old(self)@, o, title@, content@, now).records);
        id
    }

    /// Replaces title and content of the record under (owner, id) and stamps
    /// it with `now`; `None`, with nothing changed, where there is no such
    /// record.
    pub fn update(&mut self, owner: &String, id: u64, title: String, content: String, now: u64) -> (r:
        Option<Blog>)
        requires
            old(self).wf(),
        ensures
            final(self).wf(),
            match update_model(old(self)@, owner@, id, title@, content@, now) {
                Some(m) => final(self)@ == m && r is Some && get_model(m, owner@, id) == Some(
                    r->Some_0@,
                ),
                None => final(self)@ == old(self)@ && r is None,
            },
    {
        match self.find(owner, id) {
            Some(i) => {
                let ghost s = self.entries@;
                proof {
                    lemma_lookup(s, (owner@, id), i as int);
                }
                let created_at = self.entries[i].blog.created_at;
                let blog = Blog { id, title, content, created_at, updated_at: now };
                let e = Entry { owner: owner.clone(), blog: blog.clone() };
                proof {
                    lemma_set(s, i as int, e);
                }
                self.entries.set(i, e);
                assert(blog@ == edited_blog(records_of(s)[(owner@, id)], title@, content@, now));
                assert(self@ == update_model(old(self)@, owner@, id, title@, content@, now)->Some_0);
                Some(blog)
            },
            None => None,
        }
    }

    /// Rebuilds a store from a counter and (owner, record) pairs; `None` unless
    /// the ids strictly increase along `parts` and each lies in
    /// `1..=latest_blog_id`.
    pub fn from_parts(latest_blog_id: u64, parts: Vec<(String, Blog)>) -> (r: Option<BlogStore>)
        ensures
            r is Some <==> parts_valid(latest_blog_id, parts@),
            r matches Some(st) ==> {
                &&& st.wf()
                &&& st@.latest_id == latest_blog_id
                &&& st@.records == parts_records(parts@)
            },
    {
        let ghost p = parts@;
        let mut entries: Vec<Entry> = Vec::new();
        let mut pending = parts;
        let mut rest: Vec<(String, Blog)> = Vec::new();
        // Reverse, so that popping yields the parts front to back.
        while pending.len() > 0
            invariant
                p == parts@,
                p =~= pending@ + rest@.reverse(),
            decreases pending@.len(),
        {
            let x = pending.pop().unwrap();
            proof {
                assert(rest@.push(x).reverse() =~= seq![x] + rest@.reverse());
            }
            rest.push(x);
        }
        assert(p =~= rest@.reverse());
        while rest.len() > 0
            invariant
                p == parts@,
                p =~= entries@.map_values(|e: Entry| (e.owner, e.blog)) + rest@.reverse(),
                entries@.len() + rest@.len() == p.len(),
                ids_increasing(entries@),
                forall|i: int|
                    0 <= i < entries@.len() ==> 1 <= #[trigger] entries@[i].blog.id
                        <= latest_blog_id,
            decreases rest@.len(),
        {
            let (owner, blog) = rest.pop().unwrap();
            let ghost n = entries@.len() as int;
            proof {
                let mv = entries@.map_values(|e: Entry| (e.owner, e.blog));
                assert(rest@.push((owner, blog)).reverse() =~= seq![(owner, blog)] + rest@.reverse());
                assert((mv + seq![(owner, blog)] + rest@.reverse())[n] == (owner, blog));
                assert(p[n] == (owner, blog));
                assert(p[n].1.id == blog.id);
                if n > 0 {
                    assert(p[n - 1] == mv[n - 1]);
                }
            }
            if blog.id == 0 || blog.id > latest_blog_id {
                proof {
                    assert(!parts_valid(latest_blog_id, p));
                }
                return None;
            }
            if entries.len() > 0 && entries[entries.len() - 1].blog.id >= blog.id {
                proof {
                    assert(p[n - 1].1.id == entries@[n - 1].blog.id);
                    assert(!parts_valid(latest_blog_id, p));
                }
                return None;
            }
            let ghost e0 = entries@;
            entries.push(Entry { owner, blog });
            proof {
                assert forall|a: int, b: int| 0 <= a < b < entries@.len() implies entries@[a].blog.id
                    < entries@[b].blog.id by {
                    if b == n && a < n - 1 {
                        assert(e0[a].blog.id < e0[n - 1].blog.id);
                    }
                }
                assert(entries@.map_values(|e: Entry| (e.owner, e.blog)) =~= e0.map_values(
                    |e: Entry| (e.owner, e.blog),
                ).push(p[n]));
                assert(rest@.reverse() =~= p.subrange(n + 1, p.len() as int));
                assert(p =~= entries@.map_values(|e: Entry| (e.owner, e.blog)) + rest@.reverse());
            }
        }
        let st = BlogStore { latest_blog_id, entries };
        proof {
            let s = entries@;
            assert(p =~= s.map_values(|e: Entry| (e.owner, e.blog)));
            assert forall|a: int, b: int| 0 <= a < b < p.len() implies p[a].1.id < p[b].1.id by {
                assert(p[a].1 == s[a].blog && p[b].1 == s[b].blog);
            }
            assert forall|i: int| 0 <= i < p.len() implies 1 <= #[trigger] p[i].1.id
                <= latest_blog_id by {
                assert(p[i].1 == s[i].blog);
            }
            assert forall|k: (Seq<char>, u64)| #[trigger] records_of(s).contains_key(k)
                == parts_records(p).contains_key(k) by {
                if records_of(s).contains_key(k) {
                    let i = choose|i: int| at_key(s, k, i);
                    assert(parts_at_key(p, k, i));
                }
                if parts_records(p).contains_key(k) {
                    let i = choose|i: int| parts_at_key(p, k, i);
                    assert(at_key(s, k, i));
                }
            }
            assert forall|k: (Seq<char>, u64)| #[trigger] records_of(s).contains_key(k) implies records_of(s)[k]
                == parts_records(p)[k] by {
                let i = choose|i: int| at_key(s, k, i);
                lemma_lookup(s, k, i);
                let j = choose|j: int| parts_at_key(p, k, j);
                if i < j {
                    assert(p[i].1.id < p[j].1.id);
                } else if j < i {
                    assert(p[j].1.id < p[i].1.id);
                }
            }
            assert(records_of(s) =~= parts_records(p));
        }
        Some(st)
    }

    /// The counter and every (owner, record) pair, in increasing order of id:
    /// what [`BlogStore::from_parts`] takes back.
    pub fn to_parts(&self) -> (r: (u64, Vec<(String, Blog)>))
        requires
            self.wf(),
        ensures
            parts_valid(r.0, r.1@),
            r.0 == self@.latest_id,
            parts_records(r.1@) == self@.records,
    {
        let ghost s = self.entries@;
        let mut out: Vec<(String, Blog)> = Vec::new();
        let mut k: usize = 0;
        while k < self.entries.len()
            invariant
                s == self.entries@,
                self.wf(),
                k <= s.len(),
                out@.len() == k,
                forall|i: int|
                    #![trigger out@[i]]
                    0 <= i < k ==> out@[i].0@ == s[i].owner@ && out@[i].1@ == s[i].blog@,
            decreases s.len() - k,
        {
            let e = &self.entries[k];
            out.push((e.owner.clone(), e.blog.clone()));
            k = k + 1;
        }
        let ghost p = out@;
        assert forall|a: int, b: int| 0 <= a < b < p.len() implies p[a].1.id < p[b].1.id by {
            assert(out@[a].1@ == s[a].blog@ && out@[b].1@ == s[b].blog@);
        }
        assert forall|i: int| 0 <= i < p.len() implies 1 <= #[trigger] p[i].1.id
            <= self.latest_blog_id by {
            assert(out@[i].1@ == s[i].blog@);
        }
        assert forall|k: (Seq<char>, u64)| #[trigger] records_of(s).contains_key(k)
            == parts_records(p).contains_key(k) by {
            if records_of(s).contains_key(k) {
                let i = choose|i: int| at_key(s, k, i);
                assert(out@[i].1@ == s[i].blog@);
                assert(parts_at_key(p, k, i));
            }
            if parts_records(p).contains_key(k) {
                let i = choose|i: int| parts_at_key(p, k, i);
                assert(out@[i].1@ == s[i].blog@);
                assert(at_key(s, k, i));
            }
        }
        assert forall|k: (Seq<char>, u64)| #[trigger] records_of(s).contains_key(k) implies records_of(s)[k]
            == parts_records(p)[k] by {
            let i = choose|i: int| at_key(s, k, i);
            lemma_lookup(s, k, i);
            let j = choose|j: int| parts_at_key(p, k, j);
            assert(out@[j].1@ == s[j].blog@);
            assert(out@[i].1@ == s[i].blog@);
            if i < j {
                assert(p[i].1.id < p[j].1.id);
            } else if j < i {
                assert(p[j].1.id < p[i].1.id);
            }
        }
        assert(records_of(s) =~= parts_records(p));
        (self.latest_blog_id, out)
    }

    /// Every record filed under `owner`, in increasing order of id.
    pub fn list(&self, owner: &String) -> (r: Vec<Blog>)
        requires
            self.wf(),
        ensures
            forall|i: int|
                0 <= i < r@.len() ==> get_model(self@, owner@, #[trigger] r@[i].id) == Some(
                    r@[i]@,
                ),
            forall|i: int, j: int| 0 <= i < j < r@.len() ==> r@[i].id < r@[j].id,
            forall|id: u64|
                #[trigger] self@.records.contains_key((owner@, id)) ==> exists|i: int|
                    0 <= i < r@.len() && r@[i].id == id,
    {
        let ghost s = self.entries@;
        let mut r: Vec<Blog> = Vec::new();
        let mut k: usize = 0;
        while k < self.entries.len()
            invariant
                s == self.entries@,
                self.wf(),
                k <= s.len(),
                forall|i: int|
                    0 <= i < r@.len() ==> exists|j: int|
                        0 <= j < k && at_key(s, (owner@, #[trigger] r@[i].id), j) && r@[i]@
                            == s[j].blog@,
                forall|i: int, j: int| 0 <= i < j < r@.len() ==> r@[i].id < r@[j].id,
                forall|j: int|
                    0 <= j < k && #[trigger] s[j].owner@ == owner@ ==> exists|i: int|
                        0 <= i < r@.len() && r@[i].id == s[j].blog.id,
            decreases s.len() - k,
        {
            if self.entries[k].owner == *owner {
                let b = self.entries[k].blog.clone();
                let ghost r0 = r@;
                r.push(b);
                assert forall|i: int| 0 <= i < r0.len() implies #[trigger] r@[i].id < r@[r0.len() as int].id by {
                    let j = choose|j: int|
                        0 <= j < k && at_key(s, (owner@, r0[i].id), j) && r0[i]@ == s[j].blog@;
                }
                assert(at_key(s, (owner@, r@[r0.len() as int].id), k as int));
                assert forall|j: int|
                    0 <= j < k + 1 && #[trigger] s[j].owner@ == owner@ implies exists|i: int|
                        0 <= i < r@.len() && r@[i].id == s[j].blog.id by {
                    if j < k {
                        let i = choose|i: int| 0 <= i < r0.len() && r0[i].id == s[j].blog.id;
                        assert(r@[i] == r0[i]);
                    } else {
                        assert(r@[r0.len() as int].id == s[j].blog.id);
                    }
                }
            }
            k = k + 1;
        }
        assert forall|i: int| 0 <= i < r@.len() implies get_model(self@, owner@, #[trigger] r@[i].id)
            == Some(r@[i]@) by {
            let j = choose|j: int| 0 <= j < k && at_key(s, (owner@, r@[i].id), j) && r@[i]@ == s[j].blog@;
            lemma_lookup(s, (owner@, r@[i].id), j);
        }
        assert forall|id: u64| #[trigger] self@.records.contains_key((owner@, id)) implies exists|i: int|
            0 <= i < r@.len() && r@[i].id == id by {
            let j = choose|j: int| at_key(s, (owner@, id), j);
            assert(s[j].owner@ == owner@);
        }
        r
    }

    /// Removes the record under (owner, id); does nothing where there is none.
    pub fn delete(&mut self, owner: &String, id: u64)
        requires
            old(self).wf(),
        ensures
            final(self).wf(),
            final(self)@ == delete_model(old(self)@, owner@, id),
    {
        match self.find(owner, id) {
            Some(i) => {
                proof {
                    lemma_remove(self.entries@, i as int);
                }
                self.entries.remove(i);
            },
            None => {
                assert(self@.records =~= self@.records.remove((owner@, id)));
            },
        }
    }
}

} // verus!
