use vstd::prelude::*;

use crate::state::Blog;

verus! {

/// Deployment takes no parameters.
#[derive(Debug, PartialEq, Eq)]
pub struct InstantiateMsg {}

/// The state-changing operations; the owner is always the sender.
#[derive(Debug, PartialEq, Eq)]
pub enum ExecuteMsg {
    CreateBlog { title: String, content: String },
    UpdateBlog { blog_id: u64, title: String, content: String },
    DeleteBlog { blog_id: u64 },
}

/// The read-only operations.
#[derive(Debug, PartialEq, Eq)]
pub enum QueryMsg {
    /// Every record of `addr`, in increasing order of id.
    GetBlogs { addr: String },
    /// The record of `addr` with id `id`.
    GetBlog { addr: String, id: u64 },
}

#[derive(Debug, PartialEq, Eq)]
pub struct GetBlogsResponse {
    pub blogs: Vec<Blog>,
}

#[derive(Debug, PartialEq, Eq)]
pub struct GetBlogResponse {
    pub blog: Blog,
}

/// The answer to a [`QueryMsg`], one variant for each query.
#[derive(Debug, PartialEq, Eq)]
pub enum QueryResponse {
    Blogs(GetBlogsResponse),
    Blog(GetBlogResponse),
}

/// What a successful execution hands back to the host: the messages it sends
/// on to other contracts. The store never sends any.
#[derive(Debug, PartialEq, Eq)]
pub struct Response {
    pub messages: Vec<String>,
}

impl Response {
    /// A response that sends nothing.
    pub fn new() -> (r: Response)
        ensures
            r.messages@.len() == 0,
    {
        Response { messages: Vec::new() }
    }
}

} // verus!
