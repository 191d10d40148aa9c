use vstd::prelude::*;
use std::collections::HashMap;
use crate::counter::Counter;
use crate::insn::NameValue;
use crate::control_flow::tree::{ControlFlowTree, TreeView};
use crate::control_flow::cfg::ControlFlowGraph;
use crate::control_flow::travel::{travel, travel_ok, tree_views};
use crate::ast::{
    AbstractSyntaxTree, ASTSymbol, ASTType, AstTypeView, AstView, children_av, lemma_children_av_insert,
    lemma_children_av_push,
};
use crate::ast::symbols::{AddressSymbolMap, SymState};
use crate::updata_type::{m_updata_type, updata_type};

verus! {

broadcast use vstd::std_specs::vec::group_vec_axioms;

/// The walk of a function from no numbered variables and the counter at 0.
pub open spec fn start_state(syms: Map<usize, ASTSymbol>) -> SymState {
    SymState { ids: Seq::empty(), syms, next: 0 }
}

/// The syntax tree of the function `name` before its types are settled,
/// with the variables then: a `Begin` node holding the parameters, then
/// the statements of the walk of `cft` (see `travel`).
pub open spec fn cfg_tree_view(
    cft: TreeView,
    cfg: ControlFlowGraph,
    functions: Map<u64, NameValue>,
    name: Seq<char>,
    syms: Map<usize, ASTSymbol>,
) -> (AstView, Map<usize, ASTSymbol>) {
    let (body, params, st) = travel(cft, cfg, functions, start_state(syms));
    let params_view = AstView { ast_type: AstTypeView::Parameter, value: 0, next: params };
    (AstView { ast_type: AstTypeView::Begin(name), value: 0, next: seq![params_view] + body }, st.syms)
}

/// Whether building the function goes through: the walk and the typing
/// find every variable and node they read.
pub open spec fn cfg_tree_ok(
    cft: TreeView,
    cfg: ControlFlowGraph,
    functions: Map<u64, NameValue>,
    name: Seq<char>,
    syms: Map<usize, ASTSymbol>,
) -> bool {
    &&& travel_ok(cft, cfg, functions, start_state(syms))
    &&& ({
        let (t, s) = cfg_tree_view(cft, cfg, functions, name, syms);
        m_updata_type(t, s) is Some
    })
}

impl AbstractSyntaxTree {
    /// The syntax tree of the function `function_name` from its control
    /// flow tree: the statements of the walk (see `travel_cft_with_ast`),
    /// the parameters it met first, in a `Parameter` node, and the types
    /// of the variables then settled (see `updata_type`).
    pub fn from_cfg_tree(
        cft: &ControlFlowTree,
        cfg: &ControlFlowGraph,
        function_name: String,
        ast_symbol_map: &mut HashMap<usize, ASTSymbol>,
        functions: &HashMap<u64, NameValue>,
    ) -> (r: AbstractSyntaxTree)
        requires
            cfg_tree_ok(cft.tv(), *cfg, functions@, function_name@, old(ast_symbol_map)@),
        ensures
            ({
                let (t, s) = cfg_tree_view(cft.tv(), *cfg, functions@, function_name@, old(ast_symbol_map)@);
                &&& r.av() == t
                &&& Some(final(ast_symbol_map)@) == m_updata_type(t, s)
            }),
    {
        let ghost name = function_name@;
        let mut ast = AbstractSyntaxTree::new();
        ast.ast_type = ASTType::Begin(function_name);
        let mut counter = Counter::new();
        let mut address_symbol_map = AddressSymbolMap::new();
        let mut params = Vec::<AbstractSyntaxTree>::new();
        proof {
            assert(children_av(ast.next@) =~= Seq::<AstView>::empty());
            assert(tree_views(params@) =~= Seq::<AstView>::empty());
        }
        cft.travel_cft_with_ast(&mut ast, cfg, ast_symbol_map, &mut address_symbol_map, &mut counter, &mut params, functions);
        let mut params_ast = AbstractSyntaxTree::new();
        params_ast.ast_type = ASTType::Parameter;
        let ghost ps = params@;
        let ghost mut j: int = 0;
        proof {
            assert(children_av(params_ast.next@) =~= Seq::<AstView>::empty());
            assert(tree_views(ps.take(0)) =~= Seq::<AstView>::empty());
        }
        for param in it: params.into_iter()
            invariant
                it.seq() == ps,
                j == it.index(),
                params_ast.ast_type@ == AstTypeView::Parameter,
                params_ast.value == 0,
                children_av(params_ast.next@) == tree_views(ps.take(j)),
        {
            proof {
                assert(param == ps[j]);
                assert(tree_views(ps.take(j + 1)) =~= tree_views(ps.take(j)).push(param.av()));
            }
            let ghost n0 = params_ast.next@;
            params_ast.next.push(Box::new(param));
            proof {
                lemma_children_av_push(n0, Box::new(param));
                j = j + 1;
            }
        }
        proof {
            assert(ps.take(j) =~= ps);
            lemma_children_av_insert(ast.next@, 0, Box::new(params_ast));
        }
        let ghost b0 = children_av(ast.next@);
        ast.next.insert(0, Box::new(params_ast));
        proof {
            assert(children_av(ast.next@) =~= seq![params_ast.av()] + b0);
            assert(ast.av().ast_type == AstTypeView::Begin(name));
        }
        updata_type(&mut ast, ast_symbol_map);
        ast
    }
}

} // verus!
