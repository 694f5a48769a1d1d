use blog::contract::{
    create_blog, delete_blog, execute, get_blog, get_blogs, instantiate, query, update_blog,
};
use blog::error::ContractError;
use blog::msg::{ExecuteMsg, InstantiateMsg, QueryMsg, QueryResponse};
use blog::state::{Blog, BlogStore};

fn s(x: &str) -> String {
    x.to_string()
}

fn blog(id: u64, title: &str, content: &str, created_at: u64, updated_at: u64) -> Blog {
    Blog { id, title: s(title), content: s(content), created_at, updated_at }
}

#[test]
fn lifecycle_of_one_record() {
    let mut store = instantiate(InstantiateMsg {});
    create_blog(&mut store, 100, s("alice"), s("T1"), s("C1")).unwrap();
    assert_eq!(store.latest_blog_id(), 1);
    assert_eq!(get_blog(&store, s("alice"), 1).unwrap().blog, blog(1, "T1", "C1", 100, 100));

    update_blog(&mut store, 200, s("alice"), 1, s("T2"), s("C2")).unwrap();
    assert_eq!(get_blog(&store, s("alice"), 1).unwrap().blog, blog(1, "T2", "C2", 100, 200));

    delete_blog(&mut store, s("alice"), 1).unwrap();
    assert_eq!(get_blog(&store, s("alice"), 1), Err(ContractError::NotFound));
}

#[test]
fn ids_are_global_and_increasing() {
    let mut store = BlogStore::new();
    assert_eq!(store.latest_blog_id(), 0);
    assert_eq!(store.create(s("alice"), s("a"), s("x"), 1), 1);
    assert_eq!(store.create(s("bob"), s("b"), s("y"), 2), 2);
    assert_eq!(store.create(s("alice"), s("c"), s("z"), 3), 3);
    assert_eq!(store.latest_blog_id(), 3);
    assert!(store.get(&s("alice"), 2).is_none());
    assert_eq!(store.get(&s("bob"), 2), Some(blog(2, "b", "y", 2, 2)));
    assert_eq!(store.get(&s("alice"), 3), Some(blog(3, "c", "z", 3, 3)));
}

#[test]
fn ids_are_not_reused_after_delete() {
    let mut store = BlogStore::new();
    assert_eq!(store.create(s("alice"), s("a"), s("x"), 1), 1);
    store.delete(&s("alice"), 1);
    assert_eq!(store.create(s("alice"), s("b"), s("y"), 2), 2);
    assert!(store.get(&s("alice"), 1).is_none());
}

#[test]
fn other_owner_cannot_touch_record() {
    let mut store = instantiate(InstantiateMsg {});
    create_blog(&mut store, 10, s("alice"), s("T"), s("C")).unwrap();

    assert_eq!(get_blog(&store, s("bob"), 1), Err(ContractError::NotFound));
    let msg = ExecuteMsg::UpdateBlog { blog_id: 1, title: s("X"), content: s("Y") };
    assert_eq!(execute(&mut store, 20, s("bob"), msg), Err(ContractError::NotFound));
    execute(&mut store, 30, s("bob"), ExecuteMsg::DeleteBlog { blog_id: 1 }).unwrap();

    assert_eq!(get_blog(&store, s("alice"), 1).unwrap().blog, blog(1, "T", "C", 10, 10));
}

#[test]
fn delete_twice_succeeds() {
    let mut store = instantiate(InstantiateMsg {});
    create_blog(&mut store, 5, s("alice"), s("T"), s("C")).unwrap();
    assert!(delete_blog(&mut store, s("alice"), 1).is_ok());
    assert!(delete_blog(&mut store, s("alice"), 1).is_ok());
    assert_eq!(get_blog(&store, s("alice"), 1), Err(ContractError::NotFound));
}

#[test]
fn delete_of_absent_key_changes_nothing() {
    let mut store = instantiate(InstantiateMsg {});
    create_blog(&mut store, 5, s("alice"), s("T"), s("C")).unwrap();
    delete_blog(&mut store, s("alice"), 7).unwrap();
    assert_eq!(get_blog(&store, s("alice"), 1).unwrap().blog, blog(1, "T", "C", 5, 5));
    assert_eq!(store.latest_blog_id(), 1);
}

#[test]
fn update_of_absent_key_fails_and_leaves_store() {
    let mut store = instantiate(InstantiateMsg {});
    create_blog(&mut store, 5, s("alice"), s("T"), s("C")).unwrap();
    let r = update_blog(&mut store, 9, s("alice"), 999, s("X"), s("Y"));
    assert_eq!(r, Err(ContractError::NotFound));
    assert_eq!(store.latest_blog_id(), 1);
    assert!(store.get(&s("alice"), 999).is_none());
    assert_eq!(get_blog(&store, s("alice"), 1).unwrap().blog, blog(1, "T", "C", 5, 5));
}

#[test]
fn update_returns_edited_record() {
    let mut store = BlogStore::new();
    store.create(s("alice"), s("T"), s("C"), 5);
    let b = store.update(&s("alice"), 1, s("T2"), s("C2"), 8);
    assert_eq!(b, Some(blog(1, "T2", "C2", 5, 8)));
    assert_eq!(store.update(&s("bob"), 1, s("T3"), s("C3"), 9), None);
}

#[test]
fn listing_by_owner_in_id_order() {
    let mut store = instantiate(InstantiateMsg {});
    create_blog(&mut store, 1, s("alice"), s("a1"), s("x")).unwrap();
    create_blog(&mut store, 2, s("bob"), s("b1"), s("y")).unwrap();
    create_blog(&mut store, 3, s("alice"), s("a2"), s("z")).unwrap();
    create_blog(&mut store, 4, s("alice"), s("a3"), s("w")).unwrap();
    delete_blog(&mut store, s("alice"), 3).unwrap();

    let list = get_blogs(&store, s("alice")).blogs;
    assert_eq!(list, vec![blog(1, "a1", "x", 1, 1), blog(4, "a3", "w", 4, 4)]);
    assert_eq!(store.list(&s("bob")), vec![blog(2, "b1", "y", 2, 2)]);
    assert!(store.list(&s("carol")).is_empty());
}

#[test]
fn query_answers_both_messages() {
    let mut store = instantiate(InstantiateMsg {});
    create_blog(&mut store, 7, s("alice"), s("T"), s("C")).unwrap();

    match query(&store, QueryMsg::GetBlog { addr: s("alice"), id: 1 }).unwrap() {
        QueryResponse::Blog(r) => assert_eq!(r.blog, blog(1, "T", "C", 7, 7)),
        other => panic!("unexpected answer {:?}", other),
    }
    assert_eq!(
        query(&store, QueryMsg::GetBlog { addr: s("alice"), id: 2 }),
        Err(ContractError::NotFound)
    );
    match query(&store, QueryMsg::GetBlogs { addr: s("alice") }).unwrap() {
        QueryResponse::Blogs(r) => assert_eq!(r.blogs, vec![blog(1, "T", "C", 7, 7)]),
        other => panic!("unexpected answer {:?}", other),
    }
}

#[test]
fn clone_keeps_every_field() {
    let b = blog(3, "t", "c", 1, 2);
    assert_eq!(b.clone(), b);
}

#[test]
fn parts_round_trip() {
    let mut store = BlogStore::new();
    store.create(s("alice"), s("a"), s("x"), 1);
    store.create(s("bob"), s("b"), s("y"), 2);
    store.create(s("alice"), s("c"), s("z"), 3);
    store.delete(&s("alice"), 1);

    let (latest, parts) = store.to_parts();
    assert_eq!(latest, 3);
    assert_eq!(
        parts,
        vec![(s("bob"), blog(2, "b", "y", 2, 2)), (s("alice"), blog(3, "c", "z", 3, 3))]
    );

    let back = BlogStore::from_parts(latest, parts).unwrap();
    assert_eq!(back.latest_blog_id(), 3);
    assert_eq!(back.get(&s("bob"), 2), Some(blog(2, "b", "y", 2, 2)));
    assert_eq!(back.get(&s("alice"), 3), Some(blog(3, "c", "z", 3, 3)));
    assert!(back.get(&s("alice"), 1).is_none());
}

#[test]
fn from_parts_rejects_bad_ids() {
    let a = (s("alice"), blog(2, "a", "x", 1, 1));
    let b = (s("bob"), blog(1, "b", "y", 1, 1));
    assert!(BlogStore::from_parts(2, vec![a.clone(), b.clone()]).is_none());
    assert!(BlogStore::from_parts(2, vec![b.clone(), a.clone()]).is_some());
    assert!(BlogStore::from_parts(1, vec![b.clone(), a.clone()]).is_none());
    assert!(BlogStore::from_parts(5, vec![(s("bob"), blog(0, "z", "z", 1, 1))]).is_none());
    assert!(BlogStore::from_parts(5, vec![a.clone(), a.clone()]).is_none());
    assert!(BlogStore::from_parts(0, vec![]).is_some());
}
