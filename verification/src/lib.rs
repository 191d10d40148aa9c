use vstd::prelude::*;

pub mod counter;
pub mod insn;
pub mod data_flow;
pub mod data_convert;
pub mod control_flow;
pub mod block;
pub mod basic_block;
pub mod function_block;
pub mod plt;
pub mod eliminate_redundancy;
pub mod ast;
pub mod optimization;
pub mod format_while;
pub mod updata_type;
pub mod semantics;

verus! {

} // verus!
