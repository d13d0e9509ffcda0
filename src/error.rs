use vstd::prelude::*;

verus! {

/// An error that carries only a human-readable description.
#[derive(Debug)]
pub struct StringError {
    s: String,
}

impl StringError {
    pub closed spec fn text(&self) -> Seq<char> {
        self.s@
    }

    pub fn new(s: String) -> (r: Self)
        ensures
            r.text() == s@,
    {
        Self { s }
    }

    /// The description held by the error.
    pub fn message(&self) -> (r: String)
        ensures
            r@ == self.text(),
    {
        self.s.clone()
    }
}

impl std::convert::From<String> for StringError {
    fn from(s: String) -> (r: Self)
        ensures
            r.text() == s@,
    {
        Self { s }
    }
}

impl vstd::std_specs::convert::FromSpecImpl<String> for StringError {
    open spec fn obeys_from_spec() -> bool {
        true
    }

    closed spec fn from_spec(s: String) -> Self {
        StringError { s }
    }
}

impl std::convert::From<&str> for StringError {
    fn from(s: &str) -> (r: Self)
        ensures
            r.text() == s@,
    {
        Self { s: s.to_owned() }
    }
}

// No spec value stands for the `String` that `to_owned` builds, so the
// conversion from `&str` is described by the `ensures` of its `from` alone.
impl vstd::std_specs::convert::FromSpecImpl<&str> for StringError {
    open spec fn obeys_from_spec() -> bool {
        false
    }

    closed spec fn from_spec(s: &str) -> Self {
        arbitrary()
    }
}

/// An error built from a string holds exactly that text.
pub proof fn lemma_from_string_text(s: String)
    ensures
        <StringError as vstd::std_specs::convert::FromSpec<String>>::from_spec(s).text() == s@,
{
}

} // verus!

verus! {

/// The shape that a field of a response was expected to have.
#[derive(Debug, Clone, Copy, PartialEq, Eq, Structural)]
pub enum Shape {
    Object,
    Array,
    Text,
    Number,
}

/// Every way in which a run can fail.
#[derive(Debug)]
pub enum ArchiveError {
    /// The connection failed or timed out.
    Network(String),
    /// The server answered with a status other than 200.
    HttpStatus { status: u16, reason: String },
    /// The body was not a JSON document.
    Decode,
    /// A field was missing or had another shape than expected.
    Schema { expected: Shape, field: String },
    /// The envelope carried a non-zero code other than the skip sentinel.
    Api { code: i64, message: String },
    /// Writing the archive or an image failed.
    Io(String),
}

/// The mathematical value of an [`ArchiveError`].
pub enum ErrorView {
    Network(Seq<char>),
    HttpStatus(u16, Seq<char>),
    Decode,
    Schema(Shape, Seq<char>),
    Api(i64, Seq<char>),
    Io(Seq<char>),
}

impl View for ArchiveError {
    type V = ErrorView;

    open spec fn view(&self) -> ErrorView {
        match self {
            ArchiveError::Network(s) => ErrorView::Network(s@),
            ArchiveError::HttpStatus { status, reason } => ErrorView::HttpStatus(*status, reason@),
            ArchiveError::Decode => ErrorView::Decode,
            ArchiveError::Schema { expected, field } => ErrorView::Schema(*expected, field@),
            ArchiveError::Api { code, message } => ErrorView::Api(*code, message@),
            ArchiveError::Io(s) => ErrorView::Io(s@),
        }
    }
}

impl ArchiveError {
    /// The schema error for `field` that was expected to have shape `expected`.
    pub fn schema(expected: Shape, field: &str) -> (r: ArchiveError)
        ensures
            r@ == ErrorView::Schema(expected, field@),
    {
        ArchiveError::Schema { expected, field: field.to_owned() }
    }
}

} // verus!
