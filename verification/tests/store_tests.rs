use comment_store::comment::{Comment, PostComment};
use comment_store::store::Store;
use comment_store::system::CommentSystem;

fn comment(username: &str, timestamp: i64, body: &str) -> Comment {
    Comment { username: username.to_string(), timestamp, body: body.to_string() }
}

fn write(page: &str, username: &str, timestamp: i64, body: &str) -> PostComment {
    PostComment { page: page.to_string(), comment: comment(username, timestamp, body) }
}

fn assert_comments_eq(got: &[Comment], want: &[(&str, i64, &str)]) {
    assert_eq!(got.len(), want.len());
    for (c, (username, timestamp, body)) in got.iter().zip(want.iter()) {
        assert_eq!(c.username, *username);
        assert_eq!(c.timestamp, *timestamp);
        assert_eq!(c.body, *body);
    }
}

#[test]
fn scenario_two_comments_one_page() {
    let mut sys = CommentSystem::new();
    sys.submit("blog-1".to_string(), comment("ana", 1000, "hi"));
    sys.submit("blog-1".to_string(), comment("bo", 1005, "hello"));
    let page = "blog-1".to_string();
    let got = sys.query(&page).expect("blog-1 must be found");
    assert_comments_eq(got, &[("ana", 1000, "hi"), ("bo", 1005, "hello")]);
    let other = "blog-2".to_string();
    assert!(sys.query(&other).is_none());
}

#[test]
fn unsubmitted_page_not_found() {
    let sys = CommentSystem::new();
    let page = "anything".to_string();
    assert!(sys.query(&page).is_none());
    let empty = String::new();
    assert!(sys.query(&empty).is_none());
}

#[test]
fn interleaved_pages_keep_submission_order() {
    let mut sys = CommentSystem::new();
    sys.submit("a".to_string(), comment("u1", 1, "a-first"));
    sys.submit("b".to_string(), comment("u2", 2, "b-first"));
    sys.submit("a".to_string(), comment("u3", 3, "a-second"));
    sys.submit("c".to_string(), comment("u4", 4, "c-first"));
    sys.submit("a".to_string(), comment("u5", 5, "a-third"));
    sys.submit("b".to_string(), comment("u6", 6, "b-second"));
    let a = "a".to_string();
    let b = "b".to_string();
    let c = "c".to_string();
    assert_comments_eq(
        sys.query(&a).unwrap(),
        &[("u1", 1, "a-first"), ("u3", 3, "a-second"), ("u5", 5, "a-third")],
    );
    assert_comments_eq(sys.query(&b).unwrap(), &[("u2", 2, "b-first"), ("u6", 6, "b-second")]);
    assert_comments_eq(sys.query(&c).unwrap(), &[("u4", 4, "c-first")]);
}

#[test]
fn duplicates_are_preserved() {
    let mut sys = CommentSystem::new();
    sys.submit("p".to_string(), comment("ana", 7, "same"));
    sys.submit("p".to_string(), comment("ana", 7, "same"));
    let p = "p".to_string();
    assert_comments_eq(sys.query(&p).unwrap(), &[("ana", 7, "same"), ("ana", 7, "same")]);
}

#[test]
fn interleaved_callers_each_appear_exactly_once() {
    // Distinct callers whose submissions to one page arrive in some
    // interleaved acceptance order: each appears exactly once.
    let mut sys = CommentSystem::new();
    let callers = ["c0", "c1", "c2", "c3", "c4", "c5", "c6", "c7"];
    for (i, caller) in callers.iter().enumerate() {
        sys.submit("shared".to_string(), comment(caller, i as i64, "msg"));
    }
    let page = "shared".to_string();
    let got = sys.query(&page).unwrap();
    assert_eq!(got.len(), callers.len());
    for caller in callers.iter() {
        let appearances = got.iter().filter(|c| c.username == *caller).count();
        assert_eq!(appearances, 1);
    }
}

#[test]
fn store_insert_and_bulk_insert_agree() {
    let writes = vec![
        write("x", "u1", 10, "one"),
        write("y", "u2", 20, "two"),
        write("x", "u3", 30, "three"),
    ];
    let mut direct = Store::new();
    for w in writes.iter() {
        direct.insert(w.clone());
    }
    let mut bulk = Store::new();
    bulk.bulk_insert(&writes);
    for page in ["x", "y"] {
        let p = page.to_string();
        let a = direct.get(&p).unwrap();
        let b = bulk.get(&p).unwrap();
        assert_eq!(a.len(), b.len());
        for (ca, cb) in a.iter().zip(b.iter()) {
            assert_eq!(ca.username, cb.username);
            assert_eq!(ca.timestamp, cb.timestamp);
            assert_eq!(ca.body, cb.body);
        }
    }
}

#[test]
fn pending_queue_hands_writes_over_in_order_once() {
    let mut sys = CommentSystem::new();
    sys.submit("p".to_string(), comment("u1", 1, "first"));
    sys.submit("q".to_string(), comment("u2", 2, "second"));
    let drained = sys.take_pending();
    assert_eq!(drained.len(), 2);
    assert_eq!(drained[0].page, "p");
    assert_eq!(drained[0].comment.body, "first");
    assert_eq!(drained[1].page, "q");
    assert_eq!(drained[1].comment.body, "second");
    // The queue is now empty and the store is untouched.
    assert!(sys.take_pending().is_empty());
    let p = "p".to_string();
    assert_eq!(sys.query(&p).unwrap().len(), 1);
}
