use std::collections::HashMap;
use loongarch_decompiler::ast::assign_refined::refine_assign_str_bracket;
use loongarch_decompiler::ast::{AbstractSyntaxTree, ASTSymbol, ASTSymbolValueType, ASTType, Operator, Scope};
use loongarch_decompiler::data_flow::{Address, Relation};

fn node(ast_type: ASTType, value: u64, next: Vec<AbstractSyntaxTree>) -> AbstractSyntaxTree {
    let mut t = AbstractSyntaxTree::leaf(ast_type, value);
    for n in next {
        t.next.push(Box::new(n));
    }
    t
}

fn symbol(id: usize, select_type: ASTSymbolValueType, scope: Scope) -> ASTSymbol {
    ASTSymbol { id, select_type, scope, address: Address::GR(0) }
}

fn var(id: u64) -> AbstractSyntaxTree {
    node(ASTType::Variable(true), id, Vec::new())
}

fn num(v: i64) -> AbstractSyntaxTree {
    node(ASTType::Integer(true, ASTSymbolValueType::Int), v as u64, Vec::new())
}

#[test]
fn brackets_around_a_whole_right_side_go() {
    assert_eq!(refine_assign_str_bracket(String::from("var1 = (var2 + 3)")), "var1 = var2 + 3");
}

#[test]
fn brackets_of_a_product_before_a_sum_go() {
    assert_eq!(refine_assign_str_bracket(String::from("var1 = (var2 * var3) + var4")), "var1 = var2 * var3 + var4");
}

#[test]
fn brackets_after_a_minus_stay() {
    assert_eq!(refine_assign_str_bracket(String::from("var1 = var2 - (var3 + var4)")), "var1 = var2 - (var3 + var4)");
}

#[test]
fn a_dereferenced_operation_keeps_its_brackets() {
    assert_eq!(refine_assign_str_bracket(String::from("var1 = *(var2 + var3)")), "var1 = *(var2 + var3)");
}

#[test]
fn text_without_operators_is_unchanged() {
    assert_eq!(refine_assign_str_bracket(String::from("int var1 = *var2")), "int var1 = *var2");
}

#[test]
fn a_function_with_a_parameter_and_a_return() {
    let f = node(
        ASTType::Begin(String::from("main")),
        0,
        vec![
            node(ASTType::FunctionReturn(ASTSymbolValueType::Int, false), 0, Vec::new()),
            node(ASTType::Parameter, 0, vec![var(1)]),
            node(ASTType::Assign(true), 2, vec![num(5)]),
            node(ASTType::EndReturn, 0, vec![var(2)]),
        ],
    );
    let mut syms = HashMap::new();
    syms.insert(1, symbol(1, ASTSymbolValueType::Int, Scope::Local));
    syms.insert(2, symbol(2, ASTSymbolValueType::Int, Scope::Temp));
    let data: HashMap<u64, Vec<u8>> = HashMap::new();
    assert_eq!(f.to_string(&syms, &data), "int main(int var1)\n{\n\tint var2 = 5;\n\tretrun var2;\n}\n");
}

#[test]
fn a_loop_over_an_if_with_an_else() {
    let body = node(
        ASTType::If,
        0,
        vec![
            node(ASTType::Condiction(Relation::L), 0, vec![var(1), num(3)]),
            node(ASTType::True, 0, vec![node(ASTType::Break, 0, Vec::new())]),
            node(ASTType::False, 0, vec![node(ASTType::Continue, 0, Vec::new())]),
        ],
    );
    let l = node(ASTType::Loop, 0, vec![body]);
    let syms = HashMap::new();
    let data: HashMap<u64, Vec<u8>> = HashMap::new();
    assert_eq!(
        l.to_string(&syms, &data),
        "loop\n{\n\tif(var1 < 3)\n\t{\n\t\tbreak;\n\t}\n\telse\n\t{\n\t\tcontinue;\n\t}\n}\n"
    );
}

#[test]
fn combined_conditions_are_joined() {
    let cond = |r: Relation, v: i64| node(ASTType::Condiction(r), 0, vec![var(1), num(v)]);
    let conds = node(
        ASTType::Condictions,
        0,
        vec![node(
            ASTType::Operator(Operator::Or),
            0,
            vec![
                node(ASTType::Operator(Operator::And), 0, vec![cond(Relation::EQ, 2)]),
                node(ASTType::Operator(Operator::And), 0, vec![cond(Relation::NE, -3)]),
            ],
        )],
    );
    let t = node(ASTType::If, 0, vec![conds, node(ASTType::True, 0, vec![node(ASTType::Continue, 0, Vec::new())])]);
    let mut syms = HashMap::new();
    // the condition names a variable by the number of its symbol
    syms.insert(1, symbol(7, ASTSymbolValueType::Int, Scope::Local));
    let data: HashMap<u64, Vec<u8>> = HashMap::new();
    assert_eq!(t.to_string(&syms, &data), "if(var7 == 2 || var7 != -3)\n{\n\tcontinue;\n}\n");
}

#[test]
fn printf_prints_its_string() {
    let call = node(
        ASTType::Function(String::from("printf")),
        0,
        vec![
            node(ASTType::Return, 3, Vec::new()),
            node(ASTType::Integer(false, ASTSymbolValueType::Long), 0x1000, Vec::new()),
            var(1),
        ],
    );
    let mut syms = HashMap::new();
    syms.insert(3, symbol(3, ASTSymbolValueType::Int, Scope::Temp));
    let mut data: HashMap<u64, Vec<u8>> = HashMap::new();
    data.insert(0xfff, vec![0, b'h', b'i', b'\n', 0]);
    assert_eq!(call.to_string(&syms, &data), "int var3 = printf(\"hi\\n\", var1);\n");
}

#[test]
fn other_calls_stop_at_an_argument_equal_to_the_last() {
    let call = node(ASTType::Function(String::from("f")), 0, vec![var(1), num(2), var(1)]);
    let syms = HashMap::new();
    let data: HashMap<u64, Vec<u8>> = HashMap::new();
    assert_eq!(call.to_string(&syms, &data), "f(var1);\n");
}

#[test]
fn an_assignment_of_an_operation_loses_its_outer_brackets() {
    let t = node(
        ASTType::Assign(true),
        2,
        vec![node(ASTType::Operator(Operator::Add), 0, vec![var(1), num(4)])],
    );
    let mut syms = HashMap::new();
    syms.insert(1, symbol(1, ASTSymbolValueType::Long, Scope::Local));
    syms.insert(2, symbol(2, ASTSymbolValueType::Long, Scope::Temp));
    let data: HashMap<u64, Vec<u8>> = HashMap::new();
    assert_eq!(t.to_string(&syms, &data), "long var2 = var1 + 4;\n");
}

#[test]
fn refined_text_differs_only_in_brackets() {
    let strip = |t: &str| t.chars().filter(|c| *c != '(' && *c != ')').collect::<String>();
    for text in ["var1 = (var2 + 3)", "var1 = var2 - (var3 + var4)", "var1 = *(var2 + var3)", "var1 = ((var2 * 3) / var4)"] {
        let refined = refine_assign_str_bracket(String::from(text));
        assert_eq!(strip(&refined), strip(text));
    }
    assert_eq!(refine_assign_str_bracket(String::from("var1 = ((var2 * 3) / var4)")), "var1 = var2 * 3 / var4");
}
