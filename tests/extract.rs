use test_extractor::discovery::{get_suite_or_test_name, nesting_of};
use test_extractor::{extract, is_walkable, CallExpr, Node, SourceSpan, Span, TestDiscovery, TestItem};

fn span(lo: u32, hi: u32) -> Span {
    Span { lo, hi }
}

fn ident(lo: u32, name: &str) -> Node {
    Node::Ident { span: span(lo, lo + name.len() as u32), name: name.to_string() }
}

fn string(lo: u32, hi: u32) -> Node {
    Node::Str { span: span(lo, hi) }
}

fn other(lo: u32, hi: u32, children: Vec<Node>) -> Node {
    Node::Other { span: span(lo, hi), children }
}

fn call(lo: u32, hi: u32, callee: Node, args: Vec<Node>) -> Node {
    Node::Call(CallExpr { span: span(lo, hi), callee: Box::new(callee), args })
}

fn run(root: &Node) -> Vec<u32> {
    assert!(is_walkable(root));
    extract(Some(root))
}

// `test('hello', () => {})`
fn hello_test(at: u32) -> Node {
    call(at, at + 23, ident(at, "test"), vec![string(at + 5, at + 12), other(at + 14, at + 22, vec![])])
}

#[test]
fn test_extracts_empty() {
    assert_eq!(run(&other(0, 0, vec![])), Vec::<u32>::new());
}

#[test]
fn test_extracts_test() {
    let root = other(0, 23, vec![hello_test(0)]);
    assert_eq!(run(&root), vec![0, 0, 23, 5, 7]);
}

#[test]
fn test_extracts_single_deep() {
    // suite('asdf', () => {
    //             test('hello', () => {})
    //         })
    let body = other(14, 67, vec![hello_test(34)]);
    let suite = call(0, 68, ident(0, "suite"), vec![string(6, 12), body]);
    let root = other(0, 68, vec![suite]);
    assert_eq!(run(&root), vec![0, 0, 68, 6, 6, 1, 34, 23, 39, 7]);
}

#[test]
fn parse_failure_yields_nothing() {
    assert_eq!(extract(None), Vec::<u32>::new());
}

#[test]
fn unknown_callee_yields_nothing() {
    // foo('x', () => {})
    let c = call(0, 18, ident(0, "foo"), vec![string(4, 7), other(9, 17, vec![])]);
    assert_eq!(run(&other(0, 18, vec![c])), Vec::<u32>::new());
}

#[test]
fn single_argument_yields_nothing() {
    // test(() => {})
    let c = call(0, 14, ident(0, "test"), vec![other(5, 13, vec![])]);
    assert_eq!(run(&other(0, 14, vec![c])), Vec::<u32>::new());
}

#[test]
fn non_literal_name_yields_nothing() {
    // test(name, () => {})
    let c = call(0, 20, ident(0, "test"), vec![ident(5, "name"), other(11, 19, vec![])]);
    assert_eq!(run(&other(0, 20, vec![c])), Vec::<u32>::new());
}

#[test]
fn member_callee_yields_nothing() {
    // test.only('a', () => {})
    let callee = other(0, 9, vec![]);
    let c = call(0, 24, callee, vec![string(10, 13), other(15, 23, vec![])]);
    assert_eq!(run(&other(0, 24, vec![c])), Vec::<u32>::new());
}

#[test]
fn declarations_inside_other_calls_are_found() {
    // (() => { test('hello', () => {}) })()
    let inner = other(1, 34, vec![hello_test(9)]);
    let c = call(0, 37, other(0, 35, vec![inner]), vec![]);
    assert_eq!(run(&other(0, 37, vec![c])), vec![0, 9, 23, 14, 7]);
}

#[test]
fn flaky_suite_opens_a_level() {
    // flakySuite('s', () => { test('hello', () => {}) })
    let body = other(17, 49, vec![hello_test(23)]);
    let s = call(0, 50, ident(0, "flakySuite"), vec![string(11, 14), body]);
    assert_eq!(run(&other(0, 50, vec![s])), vec![0, 0, 50, 11, 3, 1, 23, 23, 28, 7]);
}

#[test]
fn test_case_body_keeps_depth() {
    // test('a', () => { test('hello', () => {}) })
    let body = other(10, 42, vec![hello_test(16)]);
    let t = call(0, 43, ident(0, "test"), vec![string(5, 8), body]);
    assert_eq!(run(&other(0, 43, vec![t])), vec![0, 0, 43, 5, 3, 0, 16, 23, 21, 7]);
}

#[test]
fn two_nested_suites_give_depth_two_then_sibling() {
    // suite('a', () => { suite('b', () => { test('hello', () => {}) }) }); test('hello', () => {})
    let inner_body = other(30, 62, vec![hello_test(36)]);
    let inner = call(19, 63, ident(19, "suite"), vec![string(25, 28), inner_body]);
    let outer_body = other(11, 65, vec![inner]);
    let outer = call(0, 66, ident(0, "suite"), vec![string(6, 9), outer_body]);
    let root = other(0, 91, vec![outer, hello_test(68)]);
    assert_eq!(
        run(&root),
        vec![
            0, 0, 66, 6, 3, //
            1, 19, 44, 25, 3, //
            2, 36, 23, 41, 7, //
            0, 68, 23, 73, 7,
        ]
    );
}

#[test]
fn output_length_is_multiple_of_five() {
    let root = other(0, 91, vec![hello_test(0), hello_test(30), hello_test(60)]);
    let out = run(&root);
    assert_eq!(out.len(), 15);
    assert_eq!(out.len() % 5, 0);
}

#[test]
fn names_lie_within_calls() {
    let body = other(14, 67, vec![hello_test(34)]);
    let suite = call(0, 68, ident(0, "suite"), vec![string(6, 12), body]);
    let out = run(&other(0, 68, vec![suite]));
    for rec in out.chunks(5) {
        assert!(rec[3] >= rec[1]);
        assert!(rec[3] + rec[4] <= rec[1] + rec[2]);
    }
}

#[test]
fn walkable_rejects_reversed_span() {
    let root = other(0, 10, vec![string(6, 4)]);
    assert!(!is_walkable(&root));
}

#[test]
fn walkable_rejects_child_outside_parent() {
    let root = other(0, 10, vec![hello_test(0)]);
    assert!(!is_walkable(&root));
}

#[test]
fn nesting_counts_suites_only() {
    let inner_body = other(30, 62, vec![hello_test(36)]);
    let inner = call(19, 63, ident(19, "suite"), vec![string(25, 28), inner_body]);
    let outer_body = other(11, 65, vec![inner]);
    let outer = call(0, 66, ident(0, "suite"), vec![string(6, 9), outer_body]);
    assert_eq!(nesting_of(&outer), Some(2));
    assert_eq!(nesting_of(&hello_test(0)), Some(0));
    assert_eq!(nesting_of(&string(3, 1)), None);
}

#[test]
fn name_argument_is_first_string_literal() {
    let c = CallExpr { span: span(0, 23), callee: Box::new(ident(0, "test")), args: vec![string(5, 12), other(14, 22, vec![])] };
    assert_eq!(get_suite_or_test_name(&c), Some(span(5, 12)));
    let one = CallExpr { span: span(0, 12), callee: Box::new(ident(0, "test")), args: vec![string(5, 11)] };
    assert_eq!(get_suite_or_test_name(&one), None);
}

#[test]
fn item_takes_lengths_of_spans() {
    let t = TestItem::new(3, &span(10, 40), &span(15, 22));
    assert_eq!(t.depth, 3);
    assert_eq!(t.call_span, SourceSpan { start: 10, length: 30 });
    assert_eq!(t.name_span, SourceSpan { start: 15, length: 7 });
}

#[test]
fn discovery_restores_depth_and_encodes_in_order() {
    let mut d = TestDiscovery::new();
    let body = other(14, 67, vec![hello_test(34)]);
    let suite = call(0, 68, ident(0, "suite"), vec![string(6, 12), body]);
    d.visit_node(&suite);
    assert_eq!(d.depth, 0);
    assert_eq!(d.tests.len(), 2);
    assert_eq!(d.results(), vec![0, 0, 68, 6, 6, 1, 34, 23, 39, 7]);
}
