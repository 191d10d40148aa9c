use std::collections::HashSet;
use loongarch_decompiler::ast::{AbstractSyntaxTree, ASTSymbolValueType, ASTType, Operator};
use loongarch_decompiler::optimization::{delete_redundant_ir, search_redundant_ir, search_var};

fn node(ast_type: ASTType, value: u64, next: Vec<AbstractSyntaxTree>) -> AbstractSyntaxTree {
    let mut t = AbstractSyntaxTree::leaf(ast_type, value);
    for n in next {
        t.next.push(Box::new(n));
    }
    t
}

fn var(id: u64) -> AbstractSyntaxTree {
    node(ASTType::Variable(true), id, Vec::new())
}

fn num(v: u64) -> AbstractSyntaxTree {
    node(ASTType::Integer(true, ASTSymbolValueType::Int), v, Vec::new())
}

fn assign(id: u64, right: AbstractSyntaxTree) -> AbstractSyntaxTree {
    node(ASTType::Assign(true), id, vec![right])
}

/// var1 = 3; var2 = var1 + 4; loop { var3 = 5 }
fn program() -> AbstractSyntaxTree {
    node(
        ASTType::Begin(String::from("f")),
        0,
        vec![
            assign(1, num(3)),
            assign(2, node(ASTType::Operator(Operator::Add), 0, vec![var(1), num(4)])),
            node(ASTType::Loop, 0, vec![assign(3, num(5))]),
        ],
    )
}

#[test]
fn uses_count_assignments_and_reads_outside_right_sides() {
    let p = program();
    let mut n: usize = 0;
    search_var(&p, 1, &mut n);
    // the read of var1 sits inside what var2 is assigned, which is not looked into
    assert_eq!(n, 1);
    let mut m: usize = 10;
    search_var(&p, 7, &mut m);
    assert_eq!(m, 10);
}

#[test]
fn variables_assigned_once_and_never_read_are_redundant() {
    let p = program();
    let mut set = HashSet::new();
    search_redundant_ir(&p, &p, &mut set);
    let mut found: Vec<u64> = set.into_iter().collect();
    found.sort();
    // the loop's own statements are each looked at as a tree, not as a
    // statement list, so var3 is not found
    assert_eq!(found, vec![1, 2]);
}

#[test]
fn the_first_assignment_of_each_listed_variable_goes() {
    let mut p = node(
        ASTType::Begin(String::from("f")),
        0,
        vec![
            assign(1, num(3)),
            assign(1, num(4)),
            node(ASTType::Loop, 0, vec![assign(3, num(5)), assign(4, num(6))]),
            node(ASTType::Operator(Operator::Add), 0, vec![assign(4, num(7))]),
        ],
    );
    let mut set: HashSet<u64> = [1u64, 3, 9].into_iter().collect();
    delete_redundant_ir(&mut p, &mut set);
    let expected = node(
        ASTType::Begin(String::from("f")),
        0,
        vec![
            assign(1, num(4)),
            node(ASTType::Loop, 0, vec![assign(4, num(6))]),
            node(ASTType::Operator(Operator::Add), 0, vec![assign(4, num(7))]),
        ],
    );
    assert_eq!(format!("{:?}", p), format!("{:?}", expected));
    let left: Vec<u64> = set.into_iter().collect();
    assert_eq!(left, vec![9]);
}
