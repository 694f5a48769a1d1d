use blog::contract::{execute, get_blog, instantiate};
use blog::msg::{ExecuteMsg, InstantiateMsg};

// Block time of the default test environment, in seconds.
const NOW: u64 = 1_571_797_419;

#[test]
fn test_create_blog() {
    let mut store = instantiate(InstantiateMsg {});
    let msg = ExecuteMsg::CreateBlog {
        title: "Test Title".to_string(),
        content: "Test Content".to_string(),
    };

    let res = execute(&mut store, NOW, "creator".to_string(), msg).unwrap();
    assert_eq!(res.messages.len(), 0);

    let rsp = get_blog(&store, "creator".to_string(), 1).unwrap();
    assert_eq!(rsp.blog.title, "Test Title");
    assert_eq!(rsp.blog.content, "Test Content");
}

#[test]
fn test_update_blog() {
    let mut store = instantiate(InstantiateMsg {});
    let msg = ExecuteMsg::CreateBlog {
        title: "Test Title".to_string(),
        content: "Test Content".to_string(),
    };
    execute(&mut store, NOW, "creator".to_string(), msg).unwrap();

    let msg = ExecuteMsg::UpdateBlog {
        blog_id: 1,
        title: "Updated Title".to_string(),
        content: "Updated Content".to_string(),
    };
    let res = execute(&mut store, NOW, "creator".to_string(), msg).unwrap();
    assert_eq!(res.messages.len(), 0);

    let rsp = get_blog(&store, "creator".to_string(), 1).unwrap();
    assert_eq!(rsp.blog.title, "Updated Title");
    assert_eq!(rsp.blog.content, "Updated Content");
}

#[test]
fn test_delete_blog() {
    let mut store = instantiate(InstantiateMsg {});
    let msg = ExecuteMsg::CreateBlog {
        title: "Test Title".to_string(),
        content: "Test Content".to_string(),
    };
    execute(&mut store, NOW, "creator".to_string(), msg).unwrap();

    let msg = ExecuteMsg::DeleteBlog { blog_id: 1 };
    execute(&mut store, NOW, "creator".to_string(), msg).unwrap();

    let rsp = get_blog(&store, "creator".to_string(), 1);
    assert_eq!(rsp.is_err(), true);
}
