//! The syntax tree the walker reads: the node kinds it needs to tell apart
//! (bare identifiers, string literals, calls) and every other node, kept only
//! as a span with the nodes nested in it.

use vstd::prelude::*;

verus! {

/// A byte range `[lo, hi)` into the source text, as the parser reports it.
#[derive(Clone, Copy, Debug, PartialEq, Eq, Structural)]
pub struct Span {
    pub lo: u32,
    pub hi: u32,
}

/// A call expression: `callee(args...)`.
pub struct CallExpr {
    pub span: Span,
    pub callee: Box<Node>,
    pub args: Vec<Node>,
}

/// One node of the tree.
pub enum Node {
    /// A bare identifier expression.
    Ident { span: Span, name: String },
    /// A string literal.
    Str { span: Span },
    /// A call expression.
    Call(CallExpr),
    /// Any other node, with the nodes nested in it in source order.
    Other { span: Span, children: Vec<Node> },
}

impl Span {
    pub open spec fn contains(self, inner: Span) -> bool {
        self.lo <= inner.lo && inner.hi <= self.hi
    }
}

impl Node {
    pub open spec fn span(self) -> Span {
        match self {
            Node::Ident { span, .. } => span,
            Node::Str { span } => span,
            Node::Call(c) => c.span,
            Node::Other { span, .. } => span,
        }
    }
}

/// Every node's span is ordered (`lo <= hi`) and lies within its parent's.
pub open spec fn well_formed(n: Node) -> bool
    decreases n,
{
    n.span().lo <= n.span().hi && match n {
        Node::Call(c) => call_well_formed(c),
        Node::Other { span, children } => all_within(children@, span),
        _ => true,
    }
}

pub open spec fn call_well_formed(c: CallExpr) -> bool
    decreases c,
{
    &&& c.span.contains(c.callee.span())
    &&& well_formed(*c.callee)
    &&& all_within(c.args@, c.span)
}

/// Each node of `s` is well formed and lies within `outer`.
pub open spec fn all_within(s: Seq<Node>, outer: Span) -> bool
    decreases s,
{
    if s.len() == 0 {
        true
    } else {
        &&& all_within(s.drop_last(), outer)
        &&& outer.contains(s.last().span())
        &&& well_formed(s.last())
    }
}

/// The span of `n`.
pub fn node_span(n: &Node) -> (r: Span)
    ensures
        r == n.span(),
{
    match n {
        Node::Ident { span, .. } => *span,
        Node::Str { span } => *span,
        Node::Call(c) => c.span,
        Node::Other { span, .. } => *span,
    }
}

/// Each element of a sequence that `all_within` accepts is well formed and
/// lies within the outer span.
pub proof fn lemma_all_within_elements(s: Seq<Node>, outer: Span)
    requires
        all_within(s, outer),
    ensures
        forall|i: int| 0 <= i < s.len() ==> well_formed(#[trigger] s[i]) && outer.contains(s[i].span()),
    decreases s.len(),
{
    if s.len() > 0 {
        lemma_all_within_elements(s.drop_last(), outer);
        assert forall|i: int| 0 <= i < s.len() implies well_formed(#[trigger] s[i]) && outer.contains(
            s[i].span(),
        ) by {
            if i < s.len() - 1 {
                assert(s[i] == s.drop_last()[i]);
            }
        }
    }
}

/// A prefix of a sequence that `all_within` accepts is accepted too.
pub proof fn lemma_all_within_prefix(s: Seq<Node>, k: int, outer: Span)
    requires
        0 <= k <= s.len(),
        all_within(s, outer),
    ensures
        all_within(s.subrange(0, k), outer),
    decreases s.len(),
{
    if k < s.len() {
        assert(s.drop_last().subrange(0, k) =~= s.subrange(0, k));
        lemma_all_within_prefix(s.drop_last(), k, outer);
    } else {
        assert(s.subrange(0, k) =~= s);
    }
}

} // verus!
