use imageboard_dl::plan::{media_url, metadata_url, plan_downloads};
use imageboard_dl::posts::{post_is_attachment, Post, Thread};
use imageboard_dl::text::u64_to_dec;
use imageboard_dl::urlparse::ThreadRef;

fn attachment(name: &str, tim: u64, ext: &str) -> Post {
    Post {
        filename: Some(name.to_string()),
        tim: Some(tim),
        ext: Some(ext.to_string()),
    }
}

fn text_post() -> Post {
    Post { filename: None, tim: None, ext: None }
}

fn thread_ref(board: &str, id: &str) -> ThreadRef {
    ThreadRef { board: board.to_string(), thread_id: id.to_string() }
}

#[test]
fn attachment_requires_all_three_fields() {
    assert!(post_is_attachment(&attachment("a", 1, ".png")));
    assert!(!post_is_attachment(&text_post()));
    assert!(!post_is_attachment(&Post {
        filename: Some("a".to_string()),
        tim: Some(1),
        ext: None,
    }));
}

#[test]
fn metadata_url_is_exact() {
    let t = thread_ref("g", "76759434");
    assert_eq!(metadata_url(&t), "https://a.4cdn.org/g/thread/76759434.json");
}

#[test]
fn media_url_is_exact() {
    assert_eq!(media_url("wsg", 1663009996277254, ".webm"), "https://i.4cdn.org/wsg/1663009996277254.webm");
}

#[test]
fn decimal_writing_is_exact() {
    assert_eq!(u64_to_dec(0), "0");
    assert_eq!(u64_to_dec(7), "7");
    assert_eq!(u64_to_dec(105), "105");
    assert_eq!(u64_to_dec(u64::MAX), "18446744073709551615");
}

#[test]
fn repeated_filenames_get_ascending_suffixes() {
    let t = thread_ref("b", "1");
    let posts = vec![
        attachment("foo", 10, ".png"),
        attachment("foo", 11, ".png"),
        attachment("foo", 12, ".png"),
    ];
    let plan = plan_downloads(&t, &Thread { posts });
    assert_eq!(plan.len(), 3);
    assert_eq!(plan[0].rel_path, "b/1/foo.png");
    assert_eq!(plan[1].rel_path, "b/1/foo1.png");
    assert_eq!(plan[2].rel_path, "b/1/foo2.png");
}

#[test]
fn distinct_filenames_get_no_suffix() {
    let t = thread_ref("g", "2");
    let posts = vec![attachment("a", 1, ".jpg"), attachment("b", 2, ".jpg")];
    let plan = plan_downloads(&t, &Thread { posts });
    assert_eq!(plan.len(), 2);
    assert_eq!(plan[0].rel_path, "g/2/a.jpg");
    assert_eq!(plan[1].rel_path, "g/2/b.jpg");
}

#[test]
fn suffix_counts_filename_only_across_extensions() {
    let t = thread_ref("g", "3");
    let posts = vec![attachment("foo", 1, ".png"), attachment("foo", 2, ".jpg")];
    let plan = plan_downloads(&t, &Thread { posts });
    assert_eq!(plan[0].rel_path, "g/3/foo.png");
    assert_eq!(plan[1].rel_path, "g/3/foo1.jpg");
}

#[test]
fn posts_missing_any_field_contribute_nothing() {
    let t = thread_ref("g", "4");
    let posts = vec![
        text_post(),
        Post { filename: Some("a".to_string()), tim: None, ext: Some(".png".to_string()) },
        Post { filename: None, tim: Some(5), ext: Some(".png".to_string()) },
        Post { filename: Some("a".to_string()), tim: Some(5), ext: None },
    ];
    assert_eq!(plan_downloads(&t, &Thread { posts }).len(), 0);
}

#[test]
fn text_posts_between_attachments_are_skipped() {
    let t = thread_ref("g", "5");
    let posts = vec![
        attachment("x", 1, ".gif"),
        text_post(),
        attachment("x", 2, ".gif"),
    ];
    let plan = plan_downloads(&t, &Thread { posts });
    assert_eq!(plan.len(), 2);
    assert_eq!(plan[0].rel_path, "g/5/x.gif");
    assert_eq!(plan[0].url, "https://i.4cdn.org/g/1.gif");
    assert_eq!(plan[1].rel_path, "g/5/x1.gif");
    assert_eq!(plan[1].url, "https://i.4cdn.org/g/2.gif");
}
