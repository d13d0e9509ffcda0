use hole_backup::error::{ArchiveError, Shape};
use hole_backup::json::{decode, Json};
use hole_backup::listing::Paginator;
use hole_backup::response::page_pids;

fn json(text: &str) -> Json {
    decode(text.as_bytes().to_vec()).unwrap().1
}

#[test]
fn stops_at_first_empty_page() {
    let pages = vec![
        r#"{"code":0,"msg":"","data":[{"pid":5},{"pid":3},{"pid":9}]}"#,
        r#"{"code":0,"msg":"","data":[{"pid":1},{"pid":3}]}"#,
        r#"{"code":0,"msg":"","data":[]}"#,
        r#"{"code":0,"msg":"","data":[{"pid":77}]}"#,
    ];
    let mut p = Paginator::new();
    let mut requested = Vec::new();
    while let Some(n) = p.next_page() {
        requested.push(n);
        let more = p.on_page(&json(pages[(n - 1) as usize])).unwrap();
        assert_eq!(more, n < 3);
    }
    assert_eq!(requested, vec![1, 2, 3]);
    assert_eq!(p.pids(), &vec![5, 3, 9, 1, 3]);
}

#[test]
fn empty_first_page() {
    let mut p = Paginator::new();
    assert_eq!(p.next_page(), Some(1));
    assert_eq!(p.on_page(&json(r#"{"code":0,"data":[]}"#)).unwrap(), false);
    assert_eq!(p.next_page(), None);
    assert!(p.pids().is_empty());
}

#[test]
fn page_with_error_code() {
    let r = page_pids(&json(r#"{"code":-101,"msg":"no","data":[]}"#));
    match r {
        Err(ArchiveError::Api { code, message }) => {
            assert_eq!(code, -101);
            assert_eq!(message, "no");
        }
        other => panic!("unexpected {:?}", other),
    }
}

#[test]
fn post_without_pid() {
    let r = page_pids(&json(r#"{"code":0,"data":[{"pid":1},{"id":2}]}"#));
    match r {
        Err(ArchiveError::Schema { expected, field }) => {
            assert_eq!(expected, Shape::Number);
            assert_eq!(field, "pid");
        }
        other => panic!("unexpected {:?}", other),
    }
}

#[test]
fn negative_pid_is_rejected() {
    assert!(matches!(
        page_pids(&json(r#"{"code":0,"data":[{"pid":-1}]}"#)),
        Err(ArchiveError::Schema { .. })
    ));
}

#[test]
fn data_must_be_an_array() {
    match page_pids(&json(r#"{"code":0,"data":{}}"#)) {
        Err(ArchiveError::Schema { expected, field }) => {
            assert_eq!(expected, Shape::Array);
            assert_eq!(field, "data");
        }
        other => panic!("unexpected {:?}", other),
    }
}

#[test]
fn error_without_message() {
    match page_pids(&json(r#"{"code":5}"#)) {
        Err(ArchiveError::Schema { expected, field }) => {
            assert_eq!(expected, Shape::Text);
            assert_eq!(field, "msg");
        }
        other => panic!("unexpected {:?}", other),
    }
}

#[test]
fn pids_in_page_order() {
    assert_eq!(page_pids(&json(r#"{"code":0,"data":[{"pid":2},{"pid":1}]}"#)).unwrap(), vec![2, 1]);
}
