//! What holds of every walk: the shape of the encoding, the placement of
//! names, the depth of nested declarations and the order of the records.

use vstd::prelude::*;
use crate::discovery::{
    call_records, inner_depth, is_match, is_suite_match, name_arg, nesting, call_nesting,
    nesting_all, own_records, records, records_all,
};
use crate::record::{flatten, item_of, lemma_flatten_layout, TestItem, TEST_ITEM_LEN};
use crate::tree::{
    all_within, call_well_formed, lemma_all_within_elements, well_formed, CallExpr, Node, Span,
};

verus! {

/// The name of the record lies within its call.
pub open spec fn name_within_call(t: TestItem) -> bool {
    &&& t.call_span.start <= t.name_span.start
    &&& t.name_span.start + t.name_span.length <= t.call_span.start + t.call_span.length
}

/// Every record of the sequence has its name within its call.
pub open spec fn names_within_calls(s: Seq<TestItem>) -> bool {
    forall|i: int| 0 <= i < s.len() ==> name_within_call(#[trigger] s[i])
}

/// Every record of the sequence has a depth from `lo` to `hi`.
pub open spec fn depths_between(s: Seq<TestItem>, lo: nat, hi: nat) -> bool {
    forall|i: int| 0 <= i < s.len() ==> lo <= (#[trigger] s[i]).depth <= hi
}

/// A parsed source with nothing in it yields no records and no integers.
pub proof fn empty_source_yields_nothing(root: Node)
    requires
        root matches Node::Other { children, .. } && children@.len() == 0,
    ensures
        records(root, 0) == Seq::<TestItem>::empty(),
        flatten(records(root, 0)) == Seq::<u32>::empty(),
{
    assert(records(root, 0) =~= Seq::<TestItem>::empty());
}

/// The encoding of a walk holds five integers per record, so its length is a
/// multiple of five.
pub proof fn output_is_whole_records(root: Node, depth: nat)
    ensures
        flatten(records(root, depth)).len() == TEST_ITEM_LEN * records(root, depth).len(),
        flatten(records(root, depth)).len() % 5 == 0,
{
    lemma_flatten_layout(records(root, depth));
}

/// In a well-formed tree, the name of every record lies within its call.
pub proof fn names_lie_within_calls(root: Node, depth: nat)
    requires
        well_formed(root),
    ensures
        names_within_calls(records(root, depth)),
    decreases root,
{
    match root {
        Node::Call(c) => call_names_lie_within_calls(c, depth),
        Node::Other { span, children } => all_names_lie_within_calls(children@, span, depth),
        _ => {},
    }
}

proof fn call_names_lie_within_calls(c: CallExpr, depth: nat)
    requires
        call_well_formed(c),
        c.span.lo <= c.span.hi,
    ensures
        names_within_calls(call_records(c, depth)),
    decreases c,
{
    let d = inner_depth(c, depth);
    lemma_all_within_elements(c.args@, c.span);
    names_lie_within_calls(*c.callee, d);
    all_names_lie_within_calls(c.args@, c.span, d);
    let own = own_records(c, depth);
    if is_match(c) {
        assert(c.span.contains(c.args@[0].span()));
        assert(well_formed(c.args@[0]));
        assert(name_within_call(own[0]));
    }
    let all = call_records(c, depth);
    assert(all == own + records(*c.callee, d) + records_all(c.args@, d));
    assert(names_within_calls(all));
}

proof fn all_names_lie_within_calls(s: Seq<Node>, outer: Span, depth: nat)
    requires
        all_within(s, outer),
    ensures
        names_within_calls(records_all(s, depth)),
    decreases s,
{
    if s.len() > 0 {
        all_names_lie_within_calls(s.drop_last(), outer, depth);
        names_lie_within_calls(s.last(), depth);
    }
}

/// Every record of a walk that starts at `depth` lies at least at `depth` and
/// at most `nesting(root)` levels deeper.
pub proof fn depths_stay_within_nesting(root: Node, depth: nat)
    requires
        depth + nesting(root) <= u32::MAX,
    ensures
        depths_between(records(root, depth), depth, depth + nesting(root)),
    decreases root,
{
    match root {
        Node::Call(c) => call_depths_stay_within_nesting(c, depth),
        Node::Other { children, .. } => all_depths_stay_within_nesting(children@, depth),
        _ => {},
    }
}

proof fn call_depths_stay_within_nesting(c: CallExpr, depth: nat)
    requires
        depth + call_nesting(c) <= u32::MAX,
    ensures
        depths_between(call_records(c, depth), depth, depth + call_nesting(c)),
    decreases c,
{
    let d = inner_depth(c, depth);
    depths_stay_within_nesting(*c.callee, d);
    all_depths_stay_within_nesting(c.args@, d);
    let all = call_records(c, depth);
    assert(all == own_records(c, depth) + records(*c.callee, d) + records_all(c.args@, d));
    assert(depths_between(all, depth, depth + call_nesting(c)));
}

proof fn all_depths_stay_within_nesting(s: Seq<Node>, depth: nat)
    requires
        depth + nesting_all(s) <= u32::MAX,
    ensures
        depths_between(records_all(s, depth), depth, depth + nesting_all(s)),
    decreases s,
{
    if s.len() > 0 {
        all_depths_stay_within_nesting(s.drop_last(), depth);
        depths_stay_within_nesting(s.last(), depth);
    }
}

/// A suite declaration is recorded at the depth of the walk, before
/// everything nested in it, which is walked one level deeper.
pub proof fn suite_body_is_one_deeper(c: CallExpr, depth: nat)
    requires
        is_suite_match(c),
    ensures
        call_records(c, depth) == seq![item_of(depth, c.span, name_arg(c)->0)] + records(
            *c.callee,
            depth + 1,
        ) + records_all(c.args@, depth + 1),
{
}

/// A test case declaration is recorded at the depth of the walk, before
/// everything nested in it, which is walked at that same depth.
pub proof fn test_case_body_keeps_depth(c: CallExpr, depth: nat)
    requires
        is_match(c),
        !is_suite_match(c),
    ensures
        call_records(c, depth) == seq![item_of(depth, c.span, name_arg(c)->0)] + records(
            *c.callee,
            depth,
        ) + records_all(c.args@, depth),
{
}

/// A call that declares nothing (another callee, fewer than two arguments,
/// or a first argument that is no string literal) adds no record of its own;
/// what is nested in it is still walked, at the same depth.
pub proof fn non_declaration_adds_only_nested(c: CallExpr, depth: nat)
    requires
        !is_match(c),
    ensures
        call_records(c, depth) == records(*c.callee, depth) + records_all(c.args@, depth),
{
    assert(call_records(c, depth) =~= records(*c.callee, depth) + records_all(c.args@, depth));
}

proof fn records_all_append(a: Seq<Node>, b: Seq<Node>, depth: nat)
    ensures
        records_all(a + b, depth) == records_all(a, depth) + records_all(b, depth),
    decreases b.len(),
{
    if b.len() == 0 {
        assert(a + b =~= a);
        assert(records_all(a, depth) + records_all(b, depth) =~= records_all(a, depth));
    } else {
        let b0 = b.drop_last();
        records_all_append(a, b0, depth);
        assert((a + b).drop_last() =~= a + b0);
        assert((a + b).last() == b.last());
        assert(records_all(a + b, depth) =~= records_all(a, depth) + records_all(b, depth));
    }
}

/// Among siblings, the records of a declaration form one block between those
/// of the earlier and those of the later siblings: first its own record, then
/// those of everything nested in it.
pub proof fn declaration_block_precedes_later_siblings(s: Seq<Node>, i: int, depth: nat)
    requires
        0 <= i < s.len(),
        s[i] is Call,
        is_match(s[i]->Call_0),
    ensures
        records_all(s, depth) == records_all(s.subrange(0, i), depth) + seq![
            item_of(depth, s[i]->Call_0.span, name_arg(s[i]->Call_0)->0),
        ] + records(*s[i]->Call_0.callee, inner_depth(s[i]->Call_0, depth)) + records_all(
            s[i]->Call_0.args@,
            inner_depth(s[i]->Call_0, depth),
        ) + records_all(s.subrange(i + 1, s.len() as int), depth),
{
    let c = s[i]->Call_0;
    let pre = s.subrange(0, i);
    let post = s.subrange(i + 1, s.len() as int);
    assert(s =~= pre + seq![s[i]] + post);
    records_all_append(pre + seq![s[i]], post, depth);
    records_all_append(pre, seq![s[i]], depth);
    assert(seq![s[i]].drop_last() =~= Seq::<Node>::empty());
    assert(seq![s[i]].last() == s[i]);
    assert(records_all(Seq::<Node>::empty(), depth) =~= Seq::<TestItem>::empty());
    assert(records_all(seq![s[i]], depth) =~= records(s[i], depth));
    let own = seq![item_of(depth, c.span, name_arg(c)->0)];
    let inner = inner_depth(c, depth);
    assert(records(s[i], depth) == own + records(*c.callee, inner) + records_all(c.args@, inner));
    assert(records_all(s, depth) =~= records_all(pre, depth) + own + records(*c.callee, inner)
        + records_all(c.args@, inner) + records_all(post, depth));
}

} // verus!
