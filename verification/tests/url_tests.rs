use imageboard_dl::urlparse::parse_thread_url;
use imageboard_dl::RunError;

fn parts(s: &str) -> (String, String) {
    let t = parse_thread_url(s).expect("should parse");
    (t.board, t.thread_id)
}

#[test]
fn accepts_main_domain() {
    assert_eq!(
        parts("https://boards.4chan.org/g/thread/76759434"),
        ("g".to_string(), "76759434".to_string())
    );
}

#[test]
fn accepts_worksafe_domain() {
    assert_eq!(
        parts("https://boards.4channel.org/wsg/thread/123"),
        ("wsg".to_string(), "123".to_string())
    );
}

#[test]
fn ignores_trailing_slug_and_query() {
    assert_eq!(
        parts("https://boards.4chan.org/wg/thread/555/some-slug?param=1"),
        ("wg".to_string(), "555".to_string())
    );
}

#[test]
fn id_stops_at_first_non_digit() {
    assert_eq!(
        parts("https://boards.4chan.org/g/thread/123abc456"),
        ("g".to_string(), "123".to_string())
    );
}

#[test]
fn board_case_is_preserved() {
    assert_eq!(
        parts("https://boards.4chan.org/Vg9/thread/1"),
        ("Vg9".to_string(), "1".to_string())
    );
}

#[test]
fn rejects_wrong_scheme() {
    assert_eq!(
        parse_thread_url("http://boards.4chan.org/g/thread/123"),
        Err(RunError::InvalidInput)
    );
}

#[test]
fn rejects_wrong_host() {
    assert_eq!(
        parse_thread_url("https://example.com/g/thread/123"),
        Err(RunError::InvalidInput)
    );
}

#[test]
fn rejects_empty_string() {
    assert_eq!(parse_thread_url(""), Err(RunError::InvalidInput));
}

#[test]
fn rejects_empty_board() {
    assert_eq!(
        parse_thread_url("https://boards.4chan.org//thread/123"),
        Err(RunError::InvalidInput)
    );
}

#[test]
fn rejects_missing_thread_segment() {
    assert_eq!(
        parse_thread_url("https://boards.4chan.org/g/res/123"),
        Err(RunError::InvalidInput)
    );
}

#[test]
fn rejects_missing_id() {
    assert_eq!(
        parse_thread_url("https://boards.4chan.org/g/thread/"),
        Err(RunError::InvalidInput)
    );
}

#[test]
fn rejects_non_numeric_id() {
    assert_eq!(
        parse_thread_url("https://boards.4chan.org/g/thread/abc"),
        Err(RunError::InvalidInput)
    );
}

#[test]
fn rejects_host_not_anchored_at_start() {
    assert_eq!(
        parse_thread_url("see https://boards.4chan.org/g/thread/123"),
        Err(RunError::InvalidInput)
    );
}
