use hole_backup::archive::{
    batch_bounds, detail_url, image_file_name, image_url, listing_url, BATCH_WIDTH,
};
use hole_backup::error::{ArchiveError, StringError};
use hole_backup::json::{decode, Json};
use hole_backup::response::check_status;

#[test]
fn image_saved_under_last_segment() {
    assert_eq!(image_file_name("a/b/c.jpg"), "c.jpg");
    assert_eq!(image_file_name("x.png"), "x.png");
}

#[test]
fn image_urls_are_absolute() {
    assert_eq!(image_url("a/b/c.jpg"), "https://i.thuhole.com/a/b/c.jpg");
}

#[test]
fn endpoint_urls() {
    assert_eq!(listing_url(3), "https://tapi.thuhole.com/v3/contents/post/attentions?page=3");
    assert_eq!(detail_url(420), "https://tapi.thuhole.com/v3/contents/post/detail?pid=420");
}

#[test]
fn batches_of_ten() {
    assert_eq!(batch_bounds(25, BATCH_WIDTH), vec![(0, 10), (10, 20), (20, 25)]);
    assert_eq!(batch_bounds(20, BATCH_WIDTH), vec![(0, 10), (10, 20)]);
    assert_eq!(batch_bounds(3, BATCH_WIDTH), vec![(0, 3)]);
    assert_eq!(batch_bounds(0, BATCH_WIDTH), Vec::<(usize, usize)>::new());
}

#[test]
fn decode_valid_document() {
    let (text, v) = decode(br#"{"code": 0, "list": [1, -2, "s", null, true]}"#.to_vec()).unwrap();
    assert_eq!(text, r#"{"code": 0, "list": [1, -2, "s", null, true]}"#);
    match v {
        Json::Object(fields) => {
            assert_eq!(fields.len(), 2);
            assert_eq!(fields[0].0, "code");
            match &fields[1].1 {
                Json::Array(items) => {
                    assert_eq!(items.len(), 5);
                    match &items[1] {
                        Json::Number(n) => {
                            assert_eq!(n.int, Some(-2));
                            assert_eq!(n.uint, None);
                        }
                        _ => panic!("expected a number"),
                    }
                }
                _ => panic!("expected an array"),
            }
        }
        _ => panic!("expected an object"),
    }
}

#[test]
fn decode_rejects_bad_json_and_bad_utf8() {
    assert!(matches!(decode(b"{not json".to_vec()), Err(ArchiveError::Decode)));
    assert!(matches!(decode(vec![0xff, 0xfe]), Err(ArchiveError::Decode)));
}

#[test]
fn string_error_keeps_its_text() {
    let e = StringError::new("boom".to_string());
    assert_eq!(e.message(), "boom");
    let f = StringError::from("bang".to_string());
    assert_eq!(f.message(), "bang");
    let g = StringError::from("from a slice");
    assert_eq!(g.message(), "from a slice");
}

#[test]
fn only_status_200_is_read() {
    assert!(check_status(200, "OK").is_ok());
    match check_status(404, "Not Found") {
        Err(ArchiveError::HttpStatus { status, reason }) => {
            assert_eq!(status, 404);
            assert_eq!(reason, "Not Found");
        }
        other => panic!("unexpected {:?}", other),
    }
}

#[test]
fn decode_gives_parsed_value() {
    let (_, v) = decode(br#"{"b": "x", "a": [true]}"#.to_vec()).unwrap();
    match v {
        Json::Object(fields) => {
            let keys: Vec<&str> = fields.iter().map(|f| f.0.as_str()).collect();
            assert_eq!(keys, vec!["a", "b"]);
            assert!(matches!(&fields[0].1, Json::Array(items) if matches!(items[0], Json::Bool(true))));
            assert!(matches!(&fields[1].1, Json::Text(t) if t == "x"));
        }
        _ => panic!("expected an object"),
    }
}
