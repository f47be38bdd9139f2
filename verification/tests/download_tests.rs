use imageboard_dl::downloads::{must_fetch, FileStore};
use imageboard_dl::plan::plan_downloads;
use imageboard_dl::posts::{Post, Thread};
use imageboard_dl::urlparse::parse_thread_url;

fn ok(path: &str, body: &[u8]) -> (String, Option<Vec<u8>>) {
    (path.to_string(), Some(body.to_vec()))
}

fn fail(path: &str) -> (String, Option<Vec<u8>>) {
    (path.to_string(), None)
}

#[test]
fn fetch_only_when_absent() {
    assert!(must_fetch(false));
    assert!(!must_fetch(true));
}

#[test]
fn second_invocation_is_a_no_op() {
    let mut store = FileStore::new();
    let events = vec![ok("g/1/a.jpg", b"first")];
    let (requests, done) = store.run(&events);
    assert_eq!(requests, 1);
    assert!(done);

    let again = vec![ok("g/1/a.jpg", b"second")];
    let (requests2, done2) = store.run(&again);
    assert_eq!(requests2, 0);
    assert!(done2);
    assert_eq!(store.get_file("g/1/a.jpg").unwrap(), &b"first".to_vec());
}

#[test]
fn end_to_end_two_files_two_requests() {
    let t = parse_thread_url("https://boards.4chan.org/g/thread/900").unwrap();
    let posts = vec![
        Post { filename: Some("a".to_string()), tim: Some(111), ext: Some(".jpg".to_string()) },
        Post { filename: Some("a".to_string()), tim: Some(222), ext: Some(".jpg".to_string()) },
        Post { filename: None, tim: None, ext: None },
    ];
    let plan = plan_downloads(&t, &Thread { posts });
    assert_eq!(plan.len(), 2);
    assert_eq!(plan[0].rel_path, "g/900/a.jpg");
    assert_eq!(plan[0].url, "https://i.4cdn.org/g/111.jpg");
    assert_eq!(plan[1].rel_path, "g/900/a1.jpg");
    assert_eq!(plan[1].url, "https://i.4cdn.org/g/222.jpg");

    let mut store = FileStore::new();
    let events: Vec<(String, Option<Vec<u8>>)> = vec![
        (plan[0].rel_path.clone(), Some(b"one".to_vec())),
        (plan[1].rel_path.clone(), Some(b"two".to_vec())),
    ];
    let (requests, done) = store.run(&events);
    assert_eq!(requests, 2);
    assert!(done);
    assert_eq!(store.get_file("g/900/a.jpg").unwrap(), &b"one".to_vec());
    assert_eq!(store.get_file("g/900/a1.jpg").unwrap(), &b"two".to_vec());
}

#[test]
fn failure_aborts_and_keeps_earlier_files() {
    let mut store = FileStore::new();
    let events = vec![
        ok("g/7/a.jpg", b"kept"),
        fail("g/7/b.jpg"),
        ok("g/7/c.jpg", b"never"),
    ];
    let (requests, done) = store.run(&events);
    assert!(!done);
    assert_eq!(requests, 2);
    assert_eq!(store.get_file("g/7/a.jpg").unwrap(), &b"kept".to_vec());
    assert!(store.get_file("g/7/b.jpg").is_none());
    assert!(store.get_file("g/7/c.jpg").is_none());
}

#[test]
fn failure_leaves_preexisting_files_untouched() {
    let mut store = FileStore::new();
    let first = vec![ok("g/8/x.png", b"original")];
    store.run(&first);

    let second = vec![fail("g/8/y.png")];
    let (requests, done) = store.run(&second);
    assert!(!done);
    assert_eq!(requests, 1);
    assert_eq!(store.get_file("g/8/x.png").unwrap(), &b"original".to_vec());
    assert!(!store.contains_file("g/8/y.png"));
}

#[test]
fn existing_file_is_skipped_inside_a_run() {
    let mut store = FileStore::new();
    let events = vec![
        ok("g/9/d.png", b"bytes"),
        ok("g/9/d.png", b"other"),
    ];
    let (requests, done) = store.run(&events);
    assert!(done);
    assert_eq!(requests, 1);
    assert_eq!(store.get_file("g/9/d.png").unwrap(), &b"bytes".to_vec());
}
