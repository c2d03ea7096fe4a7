use toolbox::blog;
use toolbox::blog_typed;

#[test]
fn basic_test() {
    let mut post = blog::Post::new();

    post.add_text("I ate a salad for lunch today");
    assert_eq!("", post.content());

    post.request_review();
    assert_eq!("", post.content());

    post.approve();
    post.approve();
    assert_eq!("I ate a salad for lunch today", post.content());
}

#[test]
fn reject_test() {
    let mut post = blog::Post::new();

    post.add_text("I ate a salad for lunch today");
    assert_eq!("", post.content());

    post.request_review();
    assert_eq!("", post.content());

    post.reject();
    assert_eq!("", post.content());

    // Approving a draft changes nothing: the post stayed in the draft
    // stage after the rejection.
    post.approve();
    post.approve();
    assert_eq!("", post.content());
}

#[test]
fn test_two_approvals() {
    let mut post = blog::Post::new();

    post.add_text("I ate a salad for lunch today");
    assert_eq!("", post.content());

    post.request_review();
    assert_eq!("", post.content());

    post.approve();
    assert_eq!("", post.content());

    post.approve();
    assert_eq!("I ate a salad for lunch today", post.content());
}

#[test]
fn test_add_text() {
    let mut post = blog::Post::new();

    post.add_text("I ate a salad");
    post.add_text(" for lunch today");
    assert_eq!("I ate a salad for lunch today", post.content);

    post.request_review();
    post.add_text("Extra text");
    assert_eq!("I ate a salad for lunch today", post.content);

    post.approve();
    post.add_text("Extra text");
    assert_eq!("I ate a salad for lunch today", post.content);

    post.add_text("Extra text");
    assert_eq!("I ate a salad for lunch today", post.content);
}

#[test]
fn object_oriented_programming_features_of_rust_17_basic_test() {
    let mut post = blog_typed::Post::new();

    post.add_text("I ate a salad for lunch today");

    let mut post = post.request_review();

    post.approve();
    let post = post.approve().unwrap();

    assert_eq!("I ate a salad for lunch today", post.content());
}

#[test]
fn object_oriented_programming_features_of_rust_17_reject_test() {
    let mut post = blog_typed::Post::new();

    post.add_text("I ate a salad for lunch today");

    let post = post.request_review();

    post.reject();
}

#[test]
fn object_oriented_programming_features_of_rust_17_test_two_approvals() {
    let mut post = blog_typed::Post::new();

    post.add_text("I ate a salad for lunch today");

    let mut post = post.request_review();

    assert!(post.approve().is_none());
    let post = post.approve().unwrap();

    assert_eq!("I ate a salad for lunch today", post.content());
}

#[test]
fn object_oriented_programming_features_of_rust_17_test_add_text() {
    let mut post = blog_typed::Post::new();

    post.add_text("I ate a salad");
    post.add_text(" for lunch today");

    let mut post = post.request_review();

    post.approve();
    let post = post.approve().unwrap();

    assert_eq!("I ate a salad for lunch today", post.content());
}
