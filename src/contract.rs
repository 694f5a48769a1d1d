use vstd::prelude::*;

use crate::error::ContractError;
use crate::model::{
    create_model, delete_model, get_model, initial_model, update_model, StoreModel,
};
use crate::msg::{
    ExecuteMsg, GetBlogResponse, GetBlogsResponse, InstantiateMsg, QueryMsg, QueryResponse,
    Response,
};
use crate::state::BlogStore;

verus! {

/// The state after `sender` executes `msg` at time `now`; `None` where the
/// message is refused as not found.
pub open spec fn execute_model(m: StoreModel, sender: Seq<char>, msg: ExecuteMsg, now: u64) -> Option<
    StoreModel,
> {
    match msg {
        ExecuteMsg::CreateBlog { title, content } => Some(
            create_model(m, sender, title@, content@, now),
        ),
        ExecuteMsg::UpdateBlog { blog_id, title, content } => update_model(
            m,
            sender,
            blog_id,
            title@,
            content@,
            now,
        ),
        ExecuteMsg::DeleteBlog { blog_id } => Some(delete_model(m, sender, blog_id)),
    }
}

/// Sets up an empty store with the id counter at zero.
pub fn instantiate(_msg: InstantiateMsg) -> (r: BlogStore)
    ensures
        r.wf(),
        r@ == initial_model(),
{
    BlogStore::new()
}

/// Runs one state-changing message on behalf of `sender` at time `now`.
pub fn execute(store: &mut BlogStore, now: u64, sender: String, msg: ExecuteMsg) -> (r: Result<
    Response,
    ContractError,
>)
    requires
        old(store).wf(),
        msg is CreateBlog ==> old(store)@.latest_id < u64::MAX,
    ensures
        final(store).wf(),
        match execute_model(old(store)@, sender@, msg, now) {
            Some(m) => final(store)@ == m && r is Ok && r->Ok_0.messages@.len() == 0,
            None => final(store)@ == old(store)@ && r == Err::<Response, ContractError>(
                ContractError::NotFound,
            ),
        },
{
    match msg {
        ExecuteMsg::CreateBlog { title, content } => create_blog(store, now, sender, title, content),
        ExecuteMsg::UpdateBlog { blog_id, title, content } => update_blog(
            store,
            now,
            sender,
            blog_id,
            title,
            content,
        ),
        ExecuteMsg::DeleteBlog { blog_id } => delete_blog(store, sender, blog_id),
    }
}

/// Files a new record under `sender` with the next id; both timestamps are
/// `now`. Always succeeds.
pub fn create_blog(store: &mut BlogStore, now: u64, sender: String, title: String, content: String) -> (r:
    Result<Response, ContractError>)
    requires
        old(store).wf(),
        old(store)@.latest_id < u64::MAX,
    ensures
        final(store).wf(),
        final(store)@ == create_model(old(store)@, sender@, title@, content@, now),
        r is Ok,
        r->Ok_0.messages@.len() == 0,
{
    store.create(sender, title, content, now);
    Ok(Response::new())
}

/// Gives the record of `sender` with id `blog_id` a new title and content,
/// stamped `now`; `NotFound`, with the store unchanged, where `sender` has no
/// such record.
pub fn update_blog(
    store: &mut BlogStore,
    now: u64,
    sender: String,
    blog_id: u64,
    title: String,
    content: String,
) -> (r: Result<Response, ContractError>)
    requires
        old(store).wf(),
    ensures
        final(store).wf(),
        match update_model(old(store)@, sender@, blog_id, title@, content@, now) {
            Some(m) => final(store)@ == m && r is Ok && r->Ok_0.messages@.len() == 0,
            None => final(store)@ == old(store)@ && r == Err::<Response, ContractError>(
                ContractError::NotFound,
            ),
        },
{
    match store.update(&sender, blog_id, title, content, now) {
        Some(_) => Ok(Response::new()),
        None => Err(ContractError::NotFound),
    }
}

/// Removes the record of `sender` with id `blog_id`; where there is none this
/// changes nothing and still succeeds.
pub fn delete_blog(store: &mut BlogStore, sender: String, blog_id: u64) -> (r: Result<
    Response,
    ContractError,
>)
    requires
        old(store).wf(),
    ensures
        final(store).wf(),
        final(store)@ == delete_model(old(store)@, sender@, blog_id),
        r is Ok,
        r->Ok_0.messages@.len() == 0,
{
    store.delete(&sender, blog_id);
    Ok(Response::new())
}

/// Answers a read-only message; only a missing single record fails.
pub fn query(store: &BlogStore, msg: QueryMsg) -> (r: Result<QueryResponse, ContractError>)
    requires
        store.wf(),
    ensures
        match msg {
            QueryMsg::GetBlog { addr, id } => match get_model(store@, addr@, id) {
                Some(b) => r matches Ok(QueryResponse::Blog(resp)) && resp.blog@ == b,
                None => r == Err::<QueryResponse, ContractError>(ContractError::NotFound),
            },
            QueryMsg::GetBlogs { addr } => r matches Ok(QueryResponse::Blogs(resp)) && {
                let s = resp.blogs@;
                &&& forall|i: int|
                    0 <= i < s.len() ==> get_model(store@, addr@, #[trigger] s[i].id) == Some(
                        s[i]@,
                    )
                &&& forall|i: int, j: int| 0 <= i < j < s.len() ==> s[i].id < s[j].id
                &&& forall|id: u64|
                    #[trigger] store@.records.contains_key((addr@, id)) ==> exists|i: int|
                        0 <= i < s.len() && s[i].id == id
            },
        },
{
    match msg {
        QueryMsg::GetBlog { addr, id } => match get_blog(store, addr, id) {
            Ok(resp) => Ok(QueryResponse::Blog(resp)),
            Err(e) => Err(e),
        },
        QueryMsg::GetBlogs { addr } => Ok(QueryResponse::Blogs(get_blogs(store, addr))),
    }
}

/// The record of `addr` with id `id`, or `NotFound`.
pub fn get_blog(store: &BlogStore, addr: String, id: u64) -> (r: Result<GetBlogResponse, ContractError>)
    requires
        store.wf(),
    ensures
        match get_model(store@, addr@, id) {
            Some(b) => r is Ok && r->Ok_0.blog@ == b,
            None => r == Err::<GetBlogResponse, ContractError>(ContractError::NotFound),
        },
{
    match store.get(&addr, id) {
        Some(blog) => Ok(GetBlogResponse { blog }),
        None => Err(ContractError::NotFound),
    }
}

/// Every record of `addr`, in increasing order of id.
pub fn get_blogs(store: &BlogStore, addr: String) -> (r: GetBlogsResponse)
    requires
        store.wf(),
    ensures
        forall|i: int|
            0 <= i < r.blogs@.len() ==> get_model(store@, addr@, #[trigger] r.blogs@[i].id) == Some(
                r.blogs@[i]@,
            ),
        forall|i: int, j: int| 0 <= i < j < r.blogs@.len() ==> r.blogs@[i].id < r.blogs@[j].id,
        forall|id: u64|
            #[trigger] store@.records.contains_key((addr@, id)) ==> exists|i: int|
                0 <= i < r.blogs@.len() && r.blogs@[i].id == id,
{
    GetBlogsResponse { blogs: store.list(&addr) }
}

} // verus!
