//! Reading the two kinds of responses: envelope validation, the post
//! identifiers of a listing page, and the images and references of a detail.
use crate::error::{ArchiveError, ErrorView, Shape};
use crate::json::{expect_array, expect_number, expect_object, expect_text, member, text_member, Json};
use crate::refs::{extract_refs, references_of_text};
use crate::text::string_of;
use vstd::prelude::*;

verus! {

/// The only HTTP status under which a response body is read.
pub const HTTP_OK: u16 = 200;

/// Checks the status of an HTTP response: anything but 200 fails with the
/// status and its reason phrase.
pub fn check_status(status: u16, reason: &str) -> (r: Result<(), ArchiveError>)
    ensures
        status == HTTP_OK ==> r is Ok,
        status != HTTP_OK ==> (r matches Err(e) && e@ == ErrorView::HttpStatus(status, reason@)),
{
    if status == HTTP_OK {
        Ok(())
    } else {
        Err(ArchiveError::HttpStatus { status, reason: reason.to_owned() })
    }
}

/// The envelope code that asks to skip one post without error.
pub const SKIP_CODE: i64 = -101;

/// The envelope code of `j`, which must be a number that fits an `i64`.
pub open spec fn envelope_code(j: Json) -> Result<i64, ErrorView> {
    match member(j, "code"@) {
        Some(Json::Number(n)) => match n.int {
            Some(c) => Ok(c),
            None => Err(ErrorView::Schema(Shape::Number, "code"@)),
        },
        _ => Err(ErrorView::Schema(Shape::Number, "code"@)),
    }
}

/// The error for a failed envelope with code `code`: it carries the message.
pub open spec fn api_failure(j: Json, code: i64) -> ErrorView {
    match text_member(j, "msg"@) {
        Ok(m) => ErrorView::Api(code, m),
        Err(e) => e,
    }
}

/// What to do with one detail response.
#[derive(Debug, Clone, Copy, PartialEq, Eq, Structural)]
pub enum DetailStatus {
    /// The record is written and scanned.
    Keep,
    /// The post is unavailable: nothing is written, the run goes on.
    Skip,
}

/// Envelope validation of a detail response.
pub open spec fn detail_status_spec(j: Json) -> Result<DetailStatus, ErrorView> {
    match envelope_code(j) {
        Err(e) => Err(e),
        Ok(c) => if c == SKIP_CODE {
            Ok(DetailStatus::Skip)
        } else if c != 0 {
            Err(api_failure(j, c))
        } else {
            Ok(DetailStatus::Keep)
        },
    }
}

fn code_of(j: &Json) -> (r: Result<i64, ArchiveError>)
    ensures
        match envelope_code(*j) {
            Ok(c) => r == Ok::<i64, ArchiveError>(c),
            Err(e) => r matches Err(x) && x@ == e,
        },
{
    let n = expect_number(j, "code")?;
    match n.int {
        Some(c) => Ok(c),
        None => Err(ArchiveError::schema(Shape::Number, "code")),
    }
}

fn api_error(j: &Json, code: i64) -> (r: ArchiveError)
    ensures
        r@ == api_failure(*j, code),
{
    match expect_text(j, "msg") {
        Ok(m) => ArchiveError::Api { code, message: m.clone() },
        Err(e) => e,
    }
}

/// Validates the envelope of a detail response.
pub fn detail_status(j: &Json) -> (r: Result<DetailStatus, ArchiveError>)
    ensures
        match detail_status_spec(*j) {
            Ok(s) => r == Ok::<DetailStatus, ArchiveError>(s),
            Err(e) => r matches Err(x) && x@ == e,
        },
{
    let c = code_of(j)?;
    if c == SKIP_CODE {
        Ok(DetailStatus::Skip)
    } else if c != 0 {
        Err(api_error(j, c))
    } else {
        Ok(DetailStatus::Keep)
    }
}

/// The identifier of one post of a listing page.
pub open spec fn pid_of(post: Json) -> Result<u64, ErrorView> {
    match member(post, "pid"@) {
        Some(Json::Number(n)) => match n.uint {
            Some(p) => Ok(p),
            None => Err(ErrorView::Schema(Shape::Number, "pid"@)),
        },
        _ => Err(ErrorView::Schema(Shape::Number, "pid"@)),
    }
}

/// The identifiers of the posts of a page, in order; the first post without
/// one decides the error.
pub open spec fn pids_of(posts: Seq<Json>) -> Result<Seq<u64>, ErrorView>
    decreases posts.len(),
{
    if posts.len() == 0 {
        Ok(Seq::empty())
    } else {
        match pids_of(posts.drop_last()) {
            Err(e) => Err(e),
            Ok(p) => match pid_of(posts.last()) {
                Err(e) => Err(e),
                Ok(x) => Ok(p.push(x)),
            },
        }
    }
}

/// A listing page: its envelope code must be 0, and each post of its `data`
/// array must carry a `pid`.
pub open spec fn listing_page_spec(j: Json) -> Result<Seq<u64>, ErrorView> {
    match envelope_code(j) {
        Err(e) => Err(e),
        Ok(c) => if c != 0 {
            Err(api_failure(j, c))
        } else {
            match member(j, "data"@) {
                Some(Json::Array(items)) => pids_of(items@),
                _ => Err(ErrorView::Schema(Shape::Array, "data"@)),
            }
        },
    }
}

/// The post identifiers of one listing page, in order.
pub fn page_pids(page: &Json) -> (r: Result<Vec<u64>, ArchiveError>)
    ensures
        match listing_page_spec(*page) {
            Ok(p) => r matches Ok(v) && v@ == p,
            Err(e) => r matches Err(x) && x@ == e,
        },
{
    let c = code_of(page)?;
    if c != 0 {
        return Err(api_error(page, c));
    }
    let posts = expect_array(page, "data")?;
    let mut pids: Vec<u64> = Vec::new();
    let mut i: usize = 0;
    assert(posts@.subrange(0, 0) =~= Seq::<Json>::empty());
    assert(listing_page_spec(*page) == pids_of(posts@));
    while i < posts.len()
        invariant
            i <= posts@.len(),
            listing_page_spec(*page) == pids_of(posts@),
            pids_of(posts@.subrange(0, i as int)) == Ok::<Seq<u64>, ErrorView>(pids@),
        decreases posts@.len() - i,
    {
        let ghost p = posts@.subrange(0, i + 1);
        assert(p.drop_last() =~= posts@.subrange(0, i as int));
        assert(p.last() == posts@[i as int]);
        let n = match expect_number(&posts[i], "pid") {
            Ok(n) => n,
            Err(e) => {
                proof { lemma_pids_error_extends(posts@, i as int + 1); }
                return Err(e);
            },
        };
        match n.uint {
            Some(x) => pids.push(x),
            None => {
                proof { lemma_pids_error_extends(posts@, i as int + 1); }
                return Err(ArchiveError::schema(Shape::Number, "pid"));
            },
        }
        i = i + 1;
    }
    assert(posts@.subrange(0, posts@.len() as int) =~= posts@);
    Ok(pids)
}

proof fn lemma_pids_error_extends(posts: Seq<Json>, i: int)
    requires
        0 <= i <= posts.len(),
        pids_of(posts.subrange(0, i)) is Err,
    ensures
        pids_of(posts) == pids_of(posts.subrange(0, i)),
    decreases posts.len() - i,
{
    if i < posts.len() {
        let q = posts.subrange(0, i + 1);
        assert(q.drop_last() =~= posts.subrange(0, i));
        lemma_pids_error_extends(posts, i + 1);
    } else {
        assert(posts.subrange(0, i) =~= posts);
    }
}

/// The image of one entry (the post body or a reply): its `url` where its
/// `type` is `"image"`.
pub open spec fn entry_images(v: Json) -> Result<Seq<Seq<char>>, ErrorView> {
    match text_member(v, "type"@) {
        Err(e) => Err(e),
        Ok(t) => if t == "image"@ {
            match text_member(v, "url"@) {
                Err(e) => Err(e),
                Ok(u) => Ok(seq![u]),
            }
        } else {
            Ok(Seq::empty())
        },
    }
}

/// The images of successive replies, in order.
pub open spec fn replies_images(rs: Seq<Json>) -> Result<Seq<Seq<char>>, ErrorView>
    decreases rs.len(),
{
    if rs.len() == 0 {
        Ok(Seq::empty())
    } else {
        match replies_images(rs.drop_last()) {
            Err(e) => Err(e),
            Ok(p) => match entry_images(rs.last()) {
                Err(e) => Err(e),
                Ok(x) => Ok(p + x),
            },
        }
    }
}

/// What a kept detail response yields: the images of its post and of each
/// reply, in order, and the candidate references of the post's text.
pub open spec fn record_links_spec(j: Json) -> Result<(Seq<Seq<char>>, Seq<u64>), ErrorView> {
    match member(j, "post"@) {
        Some(Json::Object(fs)) => {
            let post = Json::Object(fs);
            match entry_images(post) {
                Err(e) => Err(e),
                Ok(own) => match member(j, "data"@) {
                    Some(Json::Array(rs)) => match replies_images(rs@) {
                        Err(e) => Err(e),
                        Ok(more) => match text_member(post, "text"@) {
                            Err(e) => Err(e),
                            Ok(t) => Ok((own + more, references_of_text(t))),
                        },
                    },
                    _ => Err(ErrorView::Schema(Shape::Array, "data"@)),
                },
            }
        },
        _ => Err(ErrorView::Schema(Shape::Object, "post"@)),
    }
}

/// The images and candidate references found in one record.
#[derive(Debug)]
pub struct RecordLinks {
    pub images: Vec<String>,
    pub refs: Vec<u64>,
}

pub open spec fn strings_view(v: Seq<String>) -> Seq<Seq<char>> {
    v.map_values(|s: String| s@)
}

fn push_entry_images(v: &Json, images: &mut Vec<String>) -> (r: Result<(), ArchiveError>)
    ensures
        match entry_images(*v) {
            Ok(x) => r is Ok && strings_view(final(images)@) == strings_view(old(images)@) + x,
            Err(e) => r matches Err(y) && y@ == e,
        },
{
    let t = expect_text(v, "type")?;
    let image = string_of(&vec!['i', 'm', 'a', 'g', 'e']);
    proof {
        reveal_strlit("image");
        assert(image@ =~= "image"@);
    }
    if *t == image {
        let u = expect_text(v, "url")?;
        images.push(u.clone());
        assert(strings_view(images@) =~= strings_view(old(images)@) + seq![u@]);
    } else {
        assert(strings_view(images@) =~= strings_view(old(images)@) + Seq::<Seq<char>>::empty());
    }
    Ok(())
}

/// Scans a kept detail response for images and references.
pub fn record_links(j: &Json) -> (r: Result<RecordLinks, ArchiveError>)
    ensures
        match record_links_spec(*j) {
            Ok(p) => r matches Ok(l) && strings_view(l.images@) == p.0 && l.refs@ == p.1,
            Err(e) => r matches Err(x) && x@ == e,
        },
{
    let post = expect_object(j, "post")?;
    let mut images: Vec<String> = Vec::new();
    push_entry_images(post, &mut images)?;
    let replies = expect_array(j, "data")?;
    let ghost own = strings_view(images@);
    let mut i: usize = 0;
    assert(replies@.subrange(0, 0) =~= Seq::<Json>::empty());
    while i < replies.len()
        invariant
            i <= replies@.len(),
            member(*j, "post"@) == Some(*post),
            post is Object,
            entry_images(*post) == Ok::<Seq<Seq<char>>, ErrorView>(own),
            member(*j, "data"@) == Some(Json::Array(*replies)),
            replies_images(replies@.subrange(0, i as int)) matches Ok(x)
                && strings_view(images@) == own + x,
        decreases replies@.len() - i,
    {
        let ghost p = replies@.subrange(0, i + 1);
        assert(p.drop_last() =~= replies@.subrange(0, i as int));
        assert(p.last() == replies@[i as int]);
        let ghost before = images@;
        match push_entry_images(&replies[i], &mut images) {
            Ok(()) => {
                let ghost x = replies_images(replies@.subrange(0, i as int))->Ok_0;
                assert(strings_view(images@) == (own + x) + entry_images(replies@[i as int])->Ok_0);
                assert((own + x) + entry_images(replies@[i as int])->Ok_0 =~= own + (x + entry_images(replies@[i as int])->Ok_0));
            },
            Err(e) => {
                proof { lemma_replies_error_extends(replies@, i as int + 1); }
                return Err(e);
            },
        }
        i = i + 1;
    }
    assert(replies@.subrange(0, replies@.len() as int) =~= replies@);
    let text = expect_text(post, "text")?;
    let refs = extract_refs(text.as_str());
    Ok(RecordLinks { images, refs })
}

proof fn lemma_replies_error_extends(rs: Seq<Json>, i: int)
    requires
        0 <= i <= rs.len(),
        replies_images(rs.subrange(0, i)) is Err,
    ensures
        replies_images(rs) == replies_images(rs.subrange(0, i)),
    decreases rs.len() - i,
{
    if i < rs.len() {
        let q = rs.subrange(0, i + 1);
        assert(q.drop_last() =~= rs.subrange(0, i));
        lemma_replies_error_extends(rs, i + 1);
    } else {
        assert(rs.subrange(0, i) =~= rs);
    }
}

/// A detail response whose code is the skip sentinel is skipped: no record,
/// no error.
pub proof fn lemma_skip_sentinel(j: Json)
    requires
        envelope_code(j) == Ok::<i64, ErrorView>(SKIP_CODE),
    ensures
        detail_status_spec(j) == Ok::<DetailStatus, ErrorView>(DetailStatus::Skip),
{
}

/// A detail response with any other non-zero code fails with an API error
/// that carries the code and the message.
pub proof fn lemma_other_code_aborts(j: Json, c: i64, m: Seq<char>)
    requires
        envelope_code(j) == Ok::<i64, ErrorView>(c),
        c != 0,
        c != SKIP_CODE,
        text_member(j, "msg"@) == Ok::<Seq<char>, ErrorView>(m),
    ensures
        detail_status_spec(j) == Err::<DetailStatus, ErrorView>(ErrorView::Api(c, m)),
{
}

} // verus!
