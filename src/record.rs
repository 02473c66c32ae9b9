//! One discovered declaration and its fixed-width encoding as five integers.

use vstd::prelude::*;
use crate::tree::Span;

verus! {

/// Number of integers that encode one record.
pub const TEST_ITEM_LEN: usize = 5;

/// A byte range given as its start and its length.
#[derive(Clone, Copy, Debug, PartialEq, Eq, Structural)]
pub struct SourceSpan {
    pub start: u32,
    pub length: u32,
}

/// A discovered test case or suite.
#[derive(Clone, Copy, Debug, PartialEq, Eq, Structural)]
pub struct TestItem {
    /// Number of enclosing suite declarations.
    pub depth: u32,
    /// The whole call expression.
    pub call_span: SourceSpan,
    /// The string literal that names the declaration.
    pub name_span: SourceSpan,
}

/// The start/length form of an ordered `[lo, hi)` range.
pub open spec fn source_span_of(s: Span) -> SourceSpan {
    SourceSpan { start: s.lo, length: (s.hi - s.lo) as u32 }
}

/// The record for a declaration at `depth` whose call and name cover the two spans.
pub open spec fn item_of(depth: nat, call: Span, name: Span) -> TestItem {
    TestItem { depth: depth as u32, call_span: source_span_of(call), name_span: source_span_of(name) }
}

/// The five integers of one record, in field order.
pub open spec fn words_of(t: TestItem) -> Seq<u32> {
    seq![t.depth, t.call_span.start, t.call_span.length, t.name_span.start, t.name_span.length]
}

/// The records encoded one after another.
pub open spec fn flatten(items: Seq<TestItem>) -> Seq<u32>
    decreases items.len(),
{
    if items.len() == 0 {
        seq![]
    } else {
        flatten(items.drop_last()) + words_of(items.last())
    }
}

/// The encoding holds five integers per record, and record `i` occupies
/// positions `5 * i` to `5 * i + 4` with its fields in order.
pub proof fn lemma_flatten_layout(items: Seq<TestItem>)
    ensures
        flatten(items).len() == TEST_ITEM_LEN * items.len(),
        forall|i: int, k: int|
            0 <= i < items.len() && 0 <= k < TEST_ITEM_LEN ==> #[trigger] flatten(items)[
                TEST_ITEM_LEN * i + k] == words_of(#[trigger] items[i])[k],
    decreases items.len(),
{
    if items.len() > 0 {
        let init = items.drop_last();
        lemma_flatten_layout(init);
        assert forall|i: int, k: int|
            0 <= i < items.len() && 0 <= k < TEST_ITEM_LEN implies #[trigger] flatten(items)[
                TEST_ITEM_LEN * i + k] == words_of(#[trigger] items[i])[k] by {
            if i < init.len() {
                assert(init[i] == items[i]);
                assert(TEST_ITEM_LEN * i + k < TEST_ITEM_LEN * init.len()) by (nonlinear_arith)
                    requires
                        i < init.len(),
                        0 <= k < 5,
                ;
            } else {
                assert(TEST_ITEM_LEN * i == TEST_ITEM_LEN * init.len());
            }
        }
    }
}

impl TestItem {
    /// Builds the record of a declaration from the spans of its call and its name.
    pub fn new(depth: u32, test_span: &Span, name_span: &Span) -> (r: TestItem)
        requires
            test_span.lo <= test_span.hi,
            name_span.lo <= name_span.hi,
        ensures
            r == item_of(depth as nat, *test_span, *name_span),
    {
        TestItem {
            depth,
            call_span: SourceSpan { start: test_span.lo, length: test_span.hi - test_span.lo },
            name_span: SourceSpan { start: name_span.lo, length: name_span.hi - name_span.lo },
        }
    }
}

} // verus!
