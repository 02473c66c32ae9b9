//! The walker: a pre-order traversal that records every test case and suite
//! declaration together with the number of suites enclosing it.

use vstd::prelude::*;
use crate::record::{flatten, item_of, TestItem};
use crate::tree::{
    all_within, call_well_formed, lemma_all_within_elements, lemma_all_within_prefix, node_span,
    well_formed, CallExpr, Node, Span,
};

verus! {

/// Callee that declares a test case.
pub const TEST_CASE_NAME: &'static str = "test";

/// Callee that declares a suite.
pub const TEST_SUITE_NAME: &'static str = "suite";

/// Callee that declares a suite whose tests may be retried.
pub const TEST_SUITE_NAME2: &'static str = "flakySuite";

/// What a recognised callee declares.
#[derive(Clone, Copy, Debug, PartialEq, Eq, Structural)]
pub enum CallKind {
    TestCase,
    Suite,
}

/// The declaration a callee names, if it is a bare identifier with one of the
/// recognised names.
pub open spec fn callee_kind(callee: Node) -> Option<CallKind> {
    match callee {
        Node::Ident { name, .. } => if name@ == TEST_CASE_NAME@ {
            Some(CallKind::TestCase)
        } else if name@ == TEST_SUITE_NAME@ || name@ == TEST_SUITE_NAME2@ {
            Some(CallKind::Suite)
        } else {
            None
        },
        _ => None,
    }
}

/// The span of the name literal of a call with at least two arguments whose
/// first is a string literal.
pub open spec fn name_arg(c: CallExpr) -> Option<Span> {
    if c.args@.len() >= 2 && c.args@[0] is Str {
        Some(c.args@[0].span())
    } else {
        None
    }
}

/// Whether the call is a declaration: a recognised callee and a name literal.
pub open spec fn is_match(c: CallExpr) -> bool {
    callee_kind(*c.callee) is Some && name_arg(c) is Some
}

/// Whether the call is a suite declaration, which opens one level of nesting.
pub open spec fn is_suite_match(c: CallExpr) -> bool {
    is_match(c) && callee_kind(*c.callee) == Some(CallKind::Suite)
}

/// The depth at which the callee and the arguments of `c` are walked.
pub open spec fn inner_depth(c: CallExpr, depth: nat) -> nat {
    if is_suite_match(c) {
        depth + 1
    } else {
        depth
    }
}

/// The record of `c` itself, if it is a declaration.
pub open spec fn own_records(c: CallExpr, depth: nat) -> Seq<TestItem> {
    if is_match(c) {
        seq![item_of(depth, c.span, name_arg(c)->0)]
    } else {
        seq![]
    }
}

/// The records that a pre-order walk of `n` finds when it starts at `depth`.
pub open spec fn records(n: Node, depth: nat) -> Seq<TestItem>
    decreases n,
{
    match n {
        Node::Call(c) => call_records(c, depth),
        Node::Other { children, .. } => records_all(children@, depth),
        _ => seq![],
    }
}

/// The records of a call: its own, then those of its callee and its arguments.
pub open spec fn call_records(c: CallExpr, depth: nat) -> Seq<TestItem>
    decreases c,
{
    own_records(c, depth) + records(*c.callee, inner_depth(c, depth)) + records_all(
        c.args@,
        inner_depth(c, depth),
    )
}

/// The records of sibling nodes, in order.
pub open spec fn records_all(s: Seq<Node>, depth: nat) -> Seq<TestItem>
    decreases s,
{
    if s.len() == 0 {
        seq![]
    } else {
        records_all(s.drop_last(), depth) + records(s.last(), depth)
    }
}

/// The largest number of suite declarations nested in one another within `n`.
pub open spec fn nesting(n: Node) -> nat
    decreases n,
{
    match n {
        Node::Call(c) => call_nesting(c),
        Node::Other { children, .. } => nesting_all(children@),
        _ => 0,
    }
}

pub open spec fn call_nesting(c: CallExpr) -> nat
    decreases c,
{
    let inner = max_nat(nesting(*c.callee), nesting_all(c.args@));
    if is_suite_match(c) {
        inner + 1
    } else {
        inner
    }
}

pub open spec fn nesting_all(s: Seq<Node>) -> nat
    decreases s,
{
    if s.len() == 0 {
        0
    } else {
        max_nat(nesting_all(s.drop_last()), nesting(s.last()))
    }
}

pub open spec fn max_nat(a: nat, b: nat) -> nat {
    if a >= b {
        a
    } else {
        b
    }
}

proof fn lemma_nesting_all_bound(s: Seq<Node>, i: int)
    requires
        0 <= i < s.len(),
    ensures
        nesting(s[i]) <= nesting_all(s),
    decreases s.len(),
{
    if i < s.len() - 1 {
        lemma_nesting_all_bound(s.drop_last(), i);
    }
}

proof fn lemma_records_all_step(s: Seq<Node>, i: int, depth: nat)
    requires
        0 <= i < s.len(),
    ensures
        records_all(s.subrange(0, i + 1), depth) == records_all(s.subrange(0, i), depth)
            + records(s[i], depth),
{
    let t = s.subrange(0, i + 1);
    assert(t.drop_last() =~= s.subrange(0, i));
}

/// The declaration `callee` names, if any.
fn callee_kind_of(callee: &Node) -> (r: Option<CallKind>)
    ensures
        r == callee_kind(*callee),
{
    match callee {
        Node::Ident { name, .. } => {
            if name.eq(&String::from_str(TEST_CASE_NAME)) {
                Some(CallKind::TestCase)
            } else if name.eq(&String::from_str(TEST_SUITE_NAME)) || name.eq(
                &String::from_str(TEST_SUITE_NAME2),
            ) {
                Some(CallKind::Suite)
            } else {
                None
            }
        },
        _ => None,
    }
}

/// The span of the name literal of `expr`, if it has at least two arguments
/// and the first is a string literal.
pub fn get_suite_or_test_name(expr: &CallExpr) -> (r: Option<Span>)
    ensures
        r == name_arg(*expr),
{
    if expr.args.len() < 2 {
        return None;
    }
    match &expr.args[0] {
        Node::Str { span } => Some(*span),
        _ => None,
    }
}

/// The state of one walk: the records found so far and the number of suites
/// that enclose the node being visited.
pub struct TestDiscovery {
    pub tests: Vec<TestItem>,
    pub depth: u32,
}

impl TestDiscovery {
    /// The number of suite declarations enclosing the node being visited.
    pub open spec fn current_depth(&self) -> nat {
        self.depth as nat
    }

    pub fn new() -> (r: TestDiscovery)
        ensures
            r.tests@ == Seq::<TestItem>::empty(),
            r.current_depth() == 0,
    {
        TestDiscovery { depth: 0, tests: Vec::new() }
    }

    /// The records found so far, five integers each, in the order found.
    pub fn results(&self) -> (r: Vec<u32>)
        ensures
            r@ == flatten(self.tests@),
    {
        let mut output: Vec<u32> = Vec::new();
        let mut i: usize = 0;
        while i < self.tests.len()
            invariant
                i <= self.tests@.len(),
                output@ == flatten(self.tests@.subrange(0, i as int)),
            decreases self.tests@.len() - i,
        {
            let t = self.tests[i];
            proof {
                let next = self.tests@.subrange(0, i + 1);
                assert(next.drop_last() =~= self.tests@.subrange(0, i as int));
            }
            output.push(t.depth);
            output.push(t.call_span.start);
            output.push(t.call_span.length);
            output.push(t.name_span.start);
            output.push(t.name_span.length);
            proof {
                assert(output@ =~= flatten(self.tests@.subrange(0, i + 1)));
            }
            i = i + 1;
        }
        assert(self.tests@.subrange(0, i as int) =~= self.tests@);
        output
    }

    /// Walks `n` and everything nested in it.
    pub fn visit_node(&mut self, n: &Node)
        requires
            old(self).current_depth() + nesting(*n) <= u32::MAX,
            well_formed(*n),
        ensures
            final(self).current_depth() == old(self).current_depth(),
            final(self).tests@ == old(self).tests@ + records(*n, old(self).current_depth()),
        decreases n,
    {
        match n {
            Node::Call(c) => self.visit_call_expr(c),
            Node::Other { span, children } => {
                proof {
                    lemma_all_within_elements(children@, *span);
                }
                self.visit_nodes(children)
            },
            _ => {
                assert(self.tests@ =~= old(self).tests@ + records(*n, old(self).current_depth()));
            },
        }
    }

    /// Walks each of `nodes` in order.
    pub fn visit_nodes(&mut self, nodes: &Vec<Node>)
        requires
            old(self).current_depth() + nesting_all(nodes@) <= u32::MAX,
            forall|i: int| 0 <= i < nodes@.len() ==> well_formed(#[trigger] nodes@[i]),
        ensures
            final(self).current_depth() == old(self).current_depth(),
            final(self).tests@ == old(self).tests@ + records_all(nodes@, old(self).current_depth()),
        decreases nodes,
    {
        let ghost d = self.current_depth();
        let mut i: usize = 0;
        while i < nodes.len()
            invariant
                i <= nodes@.len(),
                self.current_depth() == d,
                d + nesting_all(nodes@) <= u32::MAX,
                forall|j: int| 0 <= j < nodes@.len() ==> well_formed(#[trigger] nodes@[j]),
                self.tests@ == old(self).tests@ + records_all(nodes@.subrange(0, i as int), d),
            decreases nodes@.len() - i,
        {
            proof {
                lemma_nesting_all_bound(nodes@, i as int);
                lemma_records_all_step(nodes@, i as int, d);
            }
            self.visit_node(&nodes[i]);
            proof {
                assert(self.tests@ =~= old(self).tests@ + records_all(nodes@.subrange(0, i + 1), d));
            }
            i = i + 1;
        }
        assert(nodes@.subrange(0, i as int) =~= nodes@);
    }

    /// Records `expr` if it is a declaration, then walks its callee and its
    /// arguments, one level deeper if it declares a suite.
    pub fn visit_call_expr(&mut self, expr: &CallExpr)
        requires
            old(self).current_depth() + call_nesting(*expr) <= u32::MAX,
            call_well_formed(*expr),
        ensures
            final(self).current_depth() == old(self).current_depth(),
            final(self).tests@ == old(self).tests@ + call_records(*expr, old(self).current_depth()),
        decreases expr,
    {
        let ghost d = self.current_depth();
        let kind = callee_kind_of(&expr.callee);
        let name = get_suite_or_test_name(expr);
        proof {
            lemma_all_within_elements(expr.args@, expr.span);
        }
        match (kind, name) {
            (Some(CallKind::Suite), Some(name)) => {
                self.tests.push(TestItem::new(self.depth, &expr.span, &name));
                self.depth = self.depth + 1;
                self.visit_node(&expr.callee);
                self.visit_nodes(&expr.args);
                self.depth = self.depth - 1;
            },
            (Some(CallKind::TestCase), Some(name)) => {
                self.tests.push(TestItem::new(self.depth, &expr.span, &name));
                self.visit_node(&expr.callee);
                self.visit_nodes(&expr.args);
            },
            _ => {
                self.visit_node(&expr.callee);
                self.visit_nodes(&expr.args);
            },
        }
        assert(self.tests@ =~= old(self).tests@ + call_records(*expr, d));
    }
}

proof fn lemma_all_within_step(s: Seq<Node>, i: int, outer: Span)
    requires
        0 <= i < s.len(),
    ensures
        all_within(s.subrange(0, i + 1), outer) == (all_within(s.subrange(0, i), outer)
            && outer.contains(s[i].span()) && well_formed(s[i])),
        nesting_all(s.subrange(0, i + 1)) == max_nat(nesting_all(s.subrange(0, i)), nesting(s[i])),
{
    let t = s.subrange(0, i + 1);
    assert(t.drop_last() =~= s.subrange(0, i));
}

/// Whether `expr` declares a suite.
fn is_suite_call(expr: &CallExpr) -> (r: bool)
    ensures
        r == is_suite_match(*expr),
{
    let kind = callee_kind_of(&expr.callee);
    let name = get_suite_or_test_name(expr);
    match (kind, name) {
        (Some(CallKind::Suite), Some(_)) => true,
        _ => false,
    }
}

/// The largest nesting of suites among `nodes`, if each is well formed, lies
/// within `outer` and nests no more suites than a `u32` counts.
fn nesting_of_all(nodes: &Vec<Node>, outer: &Span) -> (r: Option<u32>)
    ensures
        r == (if all_within(nodes@, *outer) && nesting_all(nodes@) <= u32::MAX {
            Some(nesting_all(nodes@) as u32)
        } else {
            None::<u32>
        }),
    decreases nodes,
{
    let mut acc: u32 = 0;
    let mut i: usize = 0;
    while i < nodes.len()
        invariant
            i <= nodes@.len(),
            all_within(nodes@.subrange(0, i as int), *outer),
            acc == nesting_all(nodes@.subrange(0, i as int)),
        decreases nodes@.len() - i,
    {
        proof {
            lemma_all_within_step(nodes@, i as int, *outer);
        }
        let child = &nodes[i];
        let inner = node_span(child);
        if !(outer.lo <= inner.lo && inner.hi <= outer.hi) {
            proof {
                if all_within(nodes@, *outer) {
                    lemma_all_within_prefix(nodes@, i + 1, *outer);
                }
            }
            return None;
        }
        match nesting_of(child) {
            Some(m) => {
                if m > acc {
                    acc = m;
                }
            },
            None => {
                proof {
                    if all_within(nodes@, *outer) {
                        lemma_all_within_prefix(nodes@, i + 1, *outer);
                    }
                    lemma_nesting_all_bound(nodes@, i as int);
                }
                return None;
            },
        }
        i = i + 1;
    }
    assert(nodes@.subrange(0, i as int) =~= nodes@);
    Some(acc)
}

/// The largest nesting of suites in `n`, if `n` is well formed and nests no
/// more suites than a `u32` counts.
pub fn nesting_of(n: &Node) -> (r: Option<u32>)
    ensures
        r == (if well_formed(*n) && nesting(*n) <= u32::MAX {
            Some(nesting(*n) as u32)
        } else {
            None::<u32>
        }),
    decreases n,
{
    let span = node_span(n);
    if span.lo > span.hi {
        return None;
    }
    match n {
        Node::Ident { .. } => Some(0),
        Node::Str { .. } => Some(0),
        Node::Other { span, children } => nesting_of_all(children, span),
        Node::Call(c) => {
            let callee_span = node_span(&c.callee);
            if !(c.span.lo <= callee_span.lo && callee_span.hi <= c.span.hi) {
                return None;
            }
            let a = match nesting_of(&c.callee) {
                Some(a) => a,
                None => return None,
            };
            let b = match nesting_of_all(&c.args, &c.span) {
                Some(b) => b,
                None => return None,
            };
            let m = if a >= b {
                a
            } else {
                b
            };
            if is_suite_call(c) {
                if m == u32::MAX {
                    None
                } else {
                    Some(m + 1)
                }
            } else {
                Some(m)
            }
        },
    }
}

/// Whether `root` can be walked: its spans are ordered and nested in their
/// parents', and its suites nest no deeper than a `u32` counts.
pub fn is_walkable(root: &Node) -> (r: bool)
    ensures
        r == (well_formed(*root) && nesting(*root) <= u32::MAX),
{
    nesting_of(root).is_some()
}

/// The records of every test case and suite declared in a parsed source, five
/// integers each in the order `depth, call start, call length, name start,
/// name length`; nothing where the source could not be parsed.
pub fn extract(parsed: Option<&Node>) -> (r: Vec<u32>)
    requires
        parsed matches Some(root) ==> well_formed(*root) && nesting(*root) <= u32::MAX,
    ensures
        r@ == match parsed {
            Some(root) => flatten(records(*root, 0)),
            None => Seq::<u32>::empty(),
        },
{
    match parsed {
        Some(root) => {
            let mut discover = TestDiscovery::new();
            discover.visit_node(root);
            discover.results()
        },
        None => Vec::new(),
    }
}

} // verus!
