use loongarch_decompiler::ast::{AbstractSyntaxTree, ASTSymbolValueType, ASTType};
use loongarch_decompiler::data_flow::Relation;
use loongarch_decompiler::format_while::format_while;

fn node(ast_type: ASTType, value: u64, next: Vec<AbstractSyntaxTree>) -> AbstractSyntaxTree {
    let mut t = AbstractSyntaxTree::leaf(ast_type, value);
    for n in next {
        t.next.push(Box::new(n));
    }
    t
}

fn var(id: u64) -> AbstractSyntaxTree {
    node(ASTType::Variable(true), id, Vec::new())
}

fn num(v: u64) -> AbstractSyntaxTree {
    node(ASTType::Integer(true, ASTSymbolValueType::Int), v, Vec::new())
}

fn root(next: Vec<AbstractSyntaxTree>) -> AbstractSyntaxTree {
    node(ASTType::Begin(String::from("main")), 0, next)
}

fn conds(id: u64) -> AbstractSyntaxTree {
    node(ASTType::Condictions, 0, vec![node(ASTType::Condiction(Relation::L), 0, vec![var(id), num(10)])])
}

fn assign(id: u64, right: AbstractSyntaxTree) -> AbstractSyntaxTree {
    node(ASTType::Assign(true), id, vec![right])
}

/// `loop { var<id> = <init>; if (var<id> < 10) { var<id> = var<id>; continue } else { break } }`
fn simple_loop(id: u64, init: AbstractSyntaxTree) -> AbstractSyntaxTree {
    node(
        ASTType::Loop,
        0,
        vec![
            assign(id, init),
            node(
                ASTType::If,
                0,
                vec![
                    conds(id),
                    node(ASTType::True, 0, vec![assign(id + 1, var(id)), node(ASTType::Continue, 0, vec![])]),
                    node(ASTType::False, 0, vec![node(ASTType::Break, 0, vec![])]),
                ],
            ),
        ],
    )
}

/// What `simple_loop` becomes.
fn while_of(id: u64) -> AbstractSyntaxTree {
    node(ASTType::While, 0, vec![conds(id), assign(id + 1, var(id))])
}

fn shape(t: &AbstractSyntaxTree) -> String {
    format!("{:?}", t)
}

#[test]
fn a_simple_loop_becomes_a_while_after_its_set_up() {
    let mut t = root(vec![simple_loop(1, num(0))]);
    format_while(&mut t);
    assert_eq!(shape(&t), shape(&root(vec![assign(1, num(0)), while_of(1)])));
}

#[test]
fn a_break_on_the_true_side_leaves_an_empty_while() {
    let l = node(
        ASTType::Loop,
        0,
        vec![node(
            ASTType::If,
            0,
            vec![
                conds(1),
                node(ASTType::True, 0, vec![node(ASTType::Break, 0, vec![])]),
                node(ASTType::False, 0, vec![assign(2, num(1)), node(ASTType::Continue, 0, vec![])]),
            ],
        )],
    );
    let mut t = root(vec![l]);
    format_while(&mut t);
    assert_eq!(shape(&t), shape(&root(vec![node(ASTType::While, 0, vec![])])));
}

#[test]
fn a_set_up_reading_a_variable_the_loop_reassigns_keeps_the_loop() {
    let l = node(
        ASTType::Loop,
        0,
        vec![
            assign(1, var(3)),
            node(
                ASTType::If,
                0,
                vec![
                    conds(1),
                    node(ASTType::True, 0, vec![assign(1, num(5)), node(ASTType::Continue, 0, vec![])]),
                    node(ASTType::False, 0, vec![node(ASTType::Break, 0, vec![])]),
                ],
            ),
        ],
    );
    let before = shape(&root(vec![l]));
    let l2 = node(
        ASTType::Loop,
        0,
        vec![
            assign(1, var(3)),
            node(
                ASTType::If,
                0,
                vec![
                    conds(1),
                    node(ASTType::True, 0, vec![assign(1, num(5)), node(ASTType::Continue, 0, vec![])]),
                    node(ASTType::False, 0, vec![node(ASTType::Break, 0, vec![])]),
                ],
            ),
        ],
    );
    let mut t = root(vec![l2]);
    format_while(&mut t);
    assert_eq!(shape(&t), before);
}

#[test]
fn a_loop_with_two_breaks_stays_a_loop() {
    let make = || {
        root(vec![node(
            ASTType::Loop,
            0,
            vec![
                node(ASTType::Break, 0, vec![]),
                node(ASTType::Break, 0, vec![]),
                node(ASTType::Continue, 0, vec![]),
            ],
        )])
    };
    let mut t = make();
    format_while(&mut t);
    assert_eq!(shape(&t), shape(&make()));
}

#[test]
fn set_ups_go_in_at_the_indices_the_loops_had() {
    let mut t = root(vec![simple_loop(1, num(0)), assign(9, num(9)), simple_loop(5, num(7))]);
    format_while(&mut t);
    let expected = root(vec![assign(1, num(0)), while_of(1), assign(5, num(7)), assign(9, num(9)), while_of(5)]);
    assert_eq!(shape(&t), shape(&expected));
}

#[test]
fn a_loop_inside_a_branch_of_an_if_is_reached() {
    let mut t = root(vec![node(ASTType::If, 0, vec![conds(7), node(ASTType::True, 0, vec![simple_loop(1, num(0))])])]);
    format_while(&mut t);
    let expected =
        root(vec![node(ASTType::If, 0, vec![conds(7), node(ASTType::True, 0, vec![assign(1, num(0)), while_of(1)])])]);
    assert_eq!(shape(&t), shape(&expected));
}

#[test]
fn a_loop_two_levels_below_a_plain_node_is_left() {
    let make = || root(vec![node(ASTType::True, 0, vec![simple_loop(1, num(0))])]);
    let mut t = make();
    format_while(&mut t);
    assert_eq!(shape(&t), shape(&make()));
}

#[test]
fn a_simple_loop_nested_in_a_loop_is_made_a_while() {
    let outer = node(
        ASTType::Loop,
        0,
        vec![simple_loop(1, num(0)), node(ASTType::Break, 0, vec![]), node(ASTType::Break, 0, vec![])],
    );
    let mut t = root(vec![outer]);
    format_while(&mut t);
    let expected = root(vec![node(
        ASTType::Loop,
        0,
        vec![assign(1, num(0)), while_of(1), node(ASTType::Break, 0, vec![]), node(ASTType::Break, 0, vec![])],
    )]);
    assert_eq!(shape(&t), shape(&expected));
}
