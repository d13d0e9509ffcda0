//! The archive layout and the endpoints: the text written around the
//! records, request URLs, image file names, and the batching of requests.
use crate::text::{chars_of, decimal, last_segment, last_segment_of, push_decimal, string_of};
use vstd::prelude::*;

verus! {

/// Opens the data file: an array literal of records.
pub const ARCHIVE_HEADER: &'static str = "const posts = [\n";

/// Follows each record's raw text.
pub const RECORD_SEPARATOR: &'static str = ",\n";

/// Separates the bookmarked records from those reached by reference.
pub const DELIMITER_LINE: &'static str = "'---',\n";

/// Closes the data file.
pub const ARCHIVE_FOOTER: &'static str = "];\n";

/// The most requests in flight at once.
pub const BATCH_WIDTH: usize = 10;

/// The listing endpoint, before the page number.
pub const LISTING_URL_PREFIX: &'static str = "https://tapi.thuhole.com/v3/contents/post/attentions?page=";

/// The detail endpoint, before the post identifier.
pub const DETAIL_URL_PREFIX: &'static str = "https://tapi.thuhole.com/v3/contents/post/detail?pid=";

/// The base that an image's relative path is resolved against.
pub const IMAGE_URL_PREFIX: &'static str = "https://i.thuhole.com/";

fn with_number(prefix: &str, n: u64) -> (r: String)
    ensures
        r@ == prefix@ + decimal(n as nat),
{
    let mut cs = chars_of(prefix);
    push_decimal(n, &mut cs);
    string_of(&cs)
}

/// The URL of listing page `page`.
pub fn listing_url(page: u64) -> (r: String)
    ensures
        r@ == LISTING_URL_PREFIX@ + decimal(page as nat),
{
    with_number(LISTING_URL_PREFIX, page)
}

/// The URL of the detail of post `pid`.
pub fn detail_url(pid: u64) -> (r: String)
    ensures
        r@ == DETAIL_URL_PREFIX@ + decimal(pid as nat),
{
    with_number(DETAIL_URL_PREFIX, pid)
}

/// The absolute URL of an image given by its relative path.
pub fn image_url(path: &str) -> (r: String)
    ensures
        r@ == IMAGE_URL_PREFIX@ + path@,
{
    let mut cs = chars_of(IMAGE_URL_PREFIX);
    let more = chars_of(path);
    let mut i: usize = 0;
    let ghost start = cs@;
    while i < more.len()
        invariant
            i <= more@.len(),
            more@ == path@,
            start == IMAGE_URL_PREFIX@,
            cs@ == start + more@.subrange(0, i as int),
        decreases more@.len() - i,
    {
        cs.push(more[i]);
        assert(cs@ =~= start + more@.subrange(0, i + 1));
        i = i + 1;
    }
    assert(more@.subrange(0, more@.len() as int) =~= more@);
    string_of(&cs)
}

/// The name under which an image is saved: the last segment of its URL.
pub fn image_file_name(path: &str) -> (r: String)
    ensures
        r@ == last_segment(IMAGE_URL_PREFIX@ + path@),
{
    let url = image_url(path);
    last_segment_of(url.as_str())
}

/// `bounds` cuts `0..len` into consecutive non-empty ranges of `width`
/// items, the last one possibly shorter.
pub open spec fn cuts(bounds: Seq<(usize, usize)>, len: nat, width: nat) -> bool {
    &&& len == 0 <==> bounds.len() == 0
    &&& bounds.len() > 0 ==> bounds[0].0 == 0 && bounds.last().1 == len
    &&& forall|k: int| 0 <= k < bounds.len() - 1 ==> (#[trigger] bounds[k]).1 == bounds[k + 1].0
    &&& forall|k: int| 0 <= k < bounds.len() - 1 ==> (#[trigger] bounds[k]).1 - bounds[k].0 == width
    &&& bounds.len() > 0 ==> 0 < bounds.last().1 - bounds.last().0 <= width
}

/// The ranges of the batches in which `len` items are handled.
pub fn batch_bounds(len: usize, width: usize) -> (r: Vec<(usize, usize)>)
    requires
        width > 0,
    ensures
        cuts(r@, len as nat, width as nat),
{
    let mut r: Vec<(usize, usize)> = Vec::new();
    let mut start: usize = 0;
    while start < len
        invariant
            width > 0,
            start <= len,
            r@.len() == 0 <==> start == 0,
            r@.len() > 0 ==> r@[0].0 == 0 && r@.last().1 == start,
            forall|k: int| 0 <= k < r@.len() ==> (#[trigger] r@[k]).1 - r@[k].0 == width,
            forall|k: int| 0 <= k < r@.len() - 1 ==> (#[trigger] r@[k]).1 == r@[k + 1].0,
        decreases len - start,
    {
        let end = if len - start > width { start + width } else { len };
        if end - start == width {
            r.push((start, end));
            start = end;
        } else {
            r.push((start, end));
            start = end;
            assert(cuts(r@, len as nat, width as nat));
            return r;
        }
    }
    r
}

} // verus!
