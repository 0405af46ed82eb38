use vstd::prelude::*;

verus! {

/// `needle` occurs contiguously inside `hay`: how a message is held to
/// name an id, a record or an offending value.
pub open spec fn contains_seq(hay: Seq<char>, needle: Seq<char>) -> bool {
    exists|o: int|
        0 <= o && o + needle.len() <= hay.len() && #[trigger] hay.subrange(o, o + needle.len())
            == needle
}

/// Every text names itself.
pub proof fn lemma_contains_self(x: Seq<char>)
    ensures
        contains_seq(x, x),
{
    let o: int = 0;
    assert(x.subrange(o, o + x.len()) =~= x);
}

/// What the left part names, the whole names.
pub proof fn lemma_append_contains_left(a: Seq<char>, b: Seq<char>, x: Seq<char>)
    requires
        contains_seq(a, x),
    ensures
        contains_seq(a + b, x),
{
    let o = choose|o: int|
        0 <= o && o + x.len() <= a.len() && #[trigger] a.subrange(o, o + x.len()) == x;
    assert((a + b).subrange(o, o + x.len()) =~= x);
}

/// What the right part names, the whole names.
pub proof fn lemma_append_contains_right(a: Seq<char>, b: Seq<char>, x: Seq<char>)
    requires
        contains_seq(b, x),
    ensures
        contains_seq(a + b, x),
{
    let o = choose|o: int|
        0 <= o && o + x.len() <= b.len() && #[trigger] b.subrange(o, o + x.len()) == x;
    assert((a + b).subrange(a.len() + o, a.len() + o + x.len()) =~= x);
}

/// Naming is transitive through quotation.
pub proof fn lemma_contains_trans(a: Seq<char>, b: Seq<char>, x: Seq<char>)
    requires
        contains_seq(a, b),
        contains_seq(b, x),
    ensures
        contains_seq(a, x),
{
    let o1 = choose|o: int|
        0 <= o && o + b.len() <= a.len() && #[trigger] a.subrange(o, o + b.len()) == b;
    let o2 = choose|o: int|
        0 <= o && o + x.len() <= b.len() && #[trigger] b.subrange(o, o + x.len()) == x;
    assert forall|t: int| 0 <= t < x.len() implies a[o1 + o2 + t] == x[t] by {
        assert(a.subrange(o1, o1 + b.len())[o2 + t] == b[o2 + t]);
        assert(b.subrange(o2, o2 + x.len())[t] == x[t]);
    }
    assert(a.subrange(o1 + o2, o1 + o2 + x.len()) =~= x);
}

/// Classifies every failure a reconciliation run can report.
#[derive(Copy, Clone, Debug, PartialEq, Eq, Structural)]
pub enum ErrorKind {
    MissingId,
    IdNotFound,
    DuplicatedId,
    DuplicatedName,
    TypeChanged,
    IdNotTracked,
    CannotOverrideId,
    ParentNotFound,
    InvalidDataType,
    ParentNotRead,
    LastCategoryNotSelectable,
    ParentNotAvailable,
    FailedToBorrowCategory,
    FailedToReadCategory,
    FailedToWriteCategory,
    FailedToTrackCategory,
    MissingCategoryIO,
    FailedToReadAttribute,
    FailedToWriteAttribute,
    FailedToBorrowAttribute,
    FailedToBorrowAttributeTracker,
    FailedToBorrowAttributeValidation,
    FailedDataTypeAttributeValidation,
    FailedDataTypeConstantAttributeValidation,
    FailedToReadConfig,
    ReservedKeywordUsedAsName,
}

/// A failure, carrying its kind and a human-readable description.
#[derive(Debug)]
pub struct Error {
    pub kind: ErrorKind,
    pub message: String,
}

impl Error {
    pub fn new(kind: ErrorKind, message: &str) -> (e: Error)
        ensures
            e.kind == kind,
            e.message@ == message@,
    {
        Error { kind, message: message.to_owned() }
    }

    /// Builds an error whose message is already owned.
    pub fn from_string(kind: ErrorKind, message: String) -> (e: Error)
        ensures
            e.kind == kind,
            e.message@ == message@,
    {
        Error { kind, message }
    }

    pub fn kind(&self) -> (k: ErrorKind)
        ensures
            k == self.kind,
    {
        self.kind
    }

    /// Renders the error as text; the message already carries the context.
    pub fn describe(&self) -> (m: String)
        ensures
            m@ == self.message@,
    {
        self.message.clone()
    }
}

} // verus!
