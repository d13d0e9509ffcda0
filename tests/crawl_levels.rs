use hole_backup::crawl::Crawl;
use hole_backup::error::{ArchiveError, Shape};
use hole_backup::json::{decode, Json};
use hole_backup::response::DetailStatus;

fn json(text: &str) -> Json {
    decode(text.as_bytes().to_vec()).unwrap().1
}

fn detail(pid: u64, text: &str) -> String {
    format!(
        r#"{{"code":0,"msg":"ok","post":{{"pid":{},"type":"text","text":"{}"}},"data":[]}}"#,
        pid, text
    )
}

/// Runs a whole crawl against `posts` (identifier, response text) and
/// returns what would be written to the data file, one item per entry.
fn run(depth: u32, bookmarks: Vec<u64>, posts: &[(u64, String)]) -> (Vec<String>, Vec<u64>) {
    let mut crawl = Crawl::new(depth, &bookmarks);
    let mut out = Vec::new();
    let mut requested = Vec::new();
    loop {
        let ids = crawl.level_ids().clone();
        for pid in ids {
            requested.push(pid);
            let text = posts.iter().find(|p| p.0 == pid).map(|p| p.1.clone()).unwrap();
            let v = json(&text);
            if crawl.validate(pid, &v).unwrap() == DetailStatus::Keep {
                out.push(format!("record {}", pid));
                crawl.scan(&v).unwrap();
            }
        }
        let end = crawl.finish_level();
        if end.delimiter {
            out.push("delimiter".to_string());
        }
        if !end.next_level {
            out.push("close".to_string());
            break;
        }
    }
    (out, requested)
}

#[test]
fn one_level_of_references() {
    let posts = vec![(1, detail(1, "see #3")), (2, detail(2, "nothing")), (3, detail(3, "end"))];
    let (out, requested) = run(1, vec![1, 2], &posts);
    assert_eq!(out, vec!["record 1", "record 2", "delimiter", "record 3", "close"]);
    assert_eq!(requested, vec![1, 2, 3]);
}

#[test]
fn depth_zero_fetches_no_reference() {
    let posts = vec![(1, detail(1, "see #3")), (2, detail(2, "#4"))];
    let (out, requested) = run(0, vec![1, 2], &posts);
    assert_eq!(out, vec!["record 1", "record 2", "delimiter", "close"]);
    assert_eq!(requested, vec![1, 2]);
}

#[test]
fn no_post_is_fetched_twice() {
    let posts = vec![
        (1, detail(1, "#2 #3 #3 #1")),
        (2, detail(2, "#1")),
        (3, detail(3, "#4 #2")),
        (4, detail(4, "#3 #1 #5")),
        (5, detail(5, "#4")),
    ];
    let (out, requested) = run(5, vec![1, 2, 1], &posts);
    assert_eq!(requested, vec![1, 2, 3, 4, 5]);
    assert_eq!(
        out,
        vec!["record 1", "record 2", "delimiter", "record 3", "record 4", "record 5", "close"]
    );
}

#[test]
fn single_delimiter_with_deep_levels() {
    let posts = vec![(1, detail(1, "#2")), (2, detail(2, "#3")), (3, detail(3, ""))];
    let (out, _) = run(10, vec![1], &posts);
    assert_eq!(out.iter().filter(|e| e.as_str() == "delimiter").count(), 1);
    assert_eq!(out, vec!["record 1", "delimiter", "record 2", "record 3", "close"]);
}

#[test]
fn skip_sentinel_writes_nothing() {
    let posts = vec![
        (1, r#"{"code":-101,"msg":"gone"}"#.to_string()),
        (2, detail(2, "#1 #7")),
        (7, r#"{"code":-101,"msg":"gone"}"#.to_string()),
    ];
    let (out, requested) = run(2, vec![1, 2], &posts);
    assert_eq!(out, vec!["record 2", "delimiter", "close"]);
    assert_eq!(requested, vec![1, 2, 7]);
}

#[test]
fn other_code_aborts_with_api_error() {
    let mut crawl = Crawl::new(1, &vec![1]);
    let v = json(r#"{"code":-3,"msg":"token expired"}"#);
    match crawl.validate(1, &v) {
        Err(ArchiveError::Api { code, message }) => {
            assert_eq!(code, -3);
            assert_eq!(message, "token expired");
        }
        other => panic!("unexpected {:?}", other),
    }
}

#[test]
fn missing_code_is_a_schema_error() {
    let mut crawl = Crawl::new(1, &vec![1]);
    let v = json(r#"{"msg":"?"}"#);
    match crawl.validate(1, &v) {
        Err(ArchiveError::Schema { expected, field }) => {
            assert_eq!(expected, Shape::Number);
            assert_eq!(field, "code");
        }
        other => panic!("unexpected {:?}", other),
    }
}

#[test]
fn scan_collects_images_of_post_and_replies() {
    let mut crawl = Crawl::new(1, &vec![1]);
    let v = json(
        r##"{"code":0,"msg":"","post":{"type":"image","url":"a/b/c.jpg","text":"#9"},
            "data":[{"type":"text"},{"type":"image","url":"r/1.png"}]}"##,
    );
    assert_eq!(crawl.validate(1, &v).unwrap(), DetailStatus::Keep);
    assert_eq!(crawl.scan(&v).unwrap(), vec!["a/b/c.jpg".to_string(), "r/1.png".to_string()]);
    let end = crawl.finish_level();
    assert!(end.delimiter && end.next_level);
    assert_eq!(crawl.level_ids(), &vec![9]);
    assert_eq!(crawl.level(), 1);
}

#[test]
fn scan_requires_image_url() {
    let mut crawl = Crawl::new(1, &vec![1]);
    let v = json(r#"{"code":0,"post":{"type":"image","text":""},"data":[]}"#);
    match crawl.scan(&v) {
        Err(ArchiveError::Schema { expected, field }) => {
            assert_eq!(expected, Shape::Text);
            assert_eq!(field, "url");
        }
        other => panic!("unexpected {:?}", other),
    }
}
