//! The cell types of the Yosys netlist format, and the errors of importing such a netlist.
use vstd::prelude::*;
use vstd::std_specs::convert::FromSpecImpl;

verus! {

/// The known Yosys cell types
#[derive(Debug)]
pub enum CellType {
    Not,
    Pos,
    Neg,
    ReduceAnd,
    ReduceOr,
    ReduceXor,
    ReduceXnor,
    ReduceBool,
    LogicNot,
    And,
    Or,
    Xor,
    Xnor,
    Shl,
    Sshl,
    Shr,
    Sshr,
    LogicAnd,
    LogicOr,
    EqX,
    NeX,
    Pow,
    Lt,
    Le,
    Eq,
    Ne,
    Ge,
    Gt,
    Add,
    Sub,
    Mul,
    Div,
    Mod,
    DivFloor,
    ModFloor,
    Mux,
    Pmux,
    TriBuf,
    Sr,
    Dff,
    Dffe,
    Sdff,
    Sdffe,
    Sdffce,
    Dlatch,
    MemRdV2,
    MemWrV2,
    MemInitV2,
    MemV2,
    Unknown(String),
}

/// The cell type a Yosys cell type name names: one of the known types, or `Unknown` holding
/// the name
pub open spec fn cell_type_of(name: String) -> CellType {
    if name@ == "$not"@ {
        CellType::Not
    } else     if name@ == "$pos"@ {
        CellType::Pos
    } else     if name@ == "$neg"@ {
        CellType::Neg
    } else     if name@ == "$reduce_and"@ {
        CellType::ReduceAnd
    } else     if name@ == "$reduce_or"@ {
        CellType::ReduceOr
    } else     if name@ == "$reduce_xor"@ {
        CellType::ReduceXor
    } else     if name@ == "$reduce_xnor"@ {
        CellType::ReduceXnor
    } else     if name@ == "$reduce_bool"@ {
        CellType::ReduceBool
    } else     if name@ == "$logic_not"@ {
        CellType::LogicNot
    } else     if name@ == "$and"@ {
        CellType::And
    } else     if name@ == "$or"@ {
        CellType::Or
    } else     if name@ == "$xor"@ {
        CellType::Xor
    } else     if name@ == "$xnor"@ {
        CellType::Xnor
    } else     if name@ == "$shl"@ {
        CellType::Shl
    } else     if name@ == "$sshl"@ {
        CellType::Sshl
    } else     if name@ == "$shr"@ {
        CellType::Shr
    } else     if name@ == "$sshr"@ {
        CellType::Sshr
    } else     if name@ == "$logic_and"@ {
        CellType::LogicAnd
    } else     if name@ == "$logic_or"@ {
        CellType::LogicOr
    } else     if name@ == "$eqx"@ {
        CellType::EqX
    } else     if name@ == "$nex"@ {
        CellType::NeX
    } else     if name@ == "$pow"@ {
        CellType::Pow
    } else     if name@ == "$lt"@ {
        CellType::Lt
    } else     if name@ == "$le"@ {
        CellType::Le
    } else     if name@ == "$eq"@ {
        CellType::Eq
    } else     if name@ == "$ne"@ {
        CellType::Ne
    } else     if name@ == "$ge"@ {
        CellType::Ge
    } else     if name@ == "$gt"@ {
        CellType::Gt
    } else     if name@ == "$add"@ {
        CellType::Add
    } else     if name@ == "$sub"@ {
        CellType::Sub
    } else     if name@ == "$mul"@ {
        CellType::Mul
    } else     if name@ == "$div"@ {
        CellType::Div
    } else     if name@ == "$mod"@ {
        CellType::Mod
    } else     if name@ == "$divfloor"@ {
        CellType::DivFloor
    } else     if name@ == "$modfloor"@ {
        CellType::ModFloor
    } else     if name@ == "$mux"@ {
        CellType::Mux
    } else     if name@ == "$pmux"@ {
        CellType::Pmux
    } else     if name@ == "$tribuf"@ {
        CellType::TriBuf
    } else     if name@ == "$sr"@ {
        CellType::Sr
    } else     if name@ == "$dff"@ {
        CellType::Dff
    } else     if name@ == "$dffe"@ {
        CellType::Dffe
    } else     if name@ == "$sdff"@ {
        CellType::Sdff
    } else     if name@ == "$sdffe"@ {
        CellType::Sdffe
    } else     if name@ == "$sdffce"@ {
        CellType::Sdffce
    } else     if name@ == "$dlatch"@ {
        CellType::Dlatch
    } else     if name@ == "$memrd_v2"@ {
        CellType::MemRdV2
    } else     if name@ == "$memwr_v2"@ {
        CellType::MemWrV2
    } else     if name@ == "$meminit_v2"@ {
        CellType::MemInitV2
    } else     if name@ == "$mem_v2"@ {
        CellType::MemV2
    } else {
        CellType::Unknown(name)
    }
}

/// Each Yosys cell type name is read as the cell type of that name, and any other name as
/// `Unknown` with the name kept
#[verifier::rlimit(100)]
pub proof fn law_cell_type_names(name: String)
    ensures
        name@ == "$not"@ ==> cell_type_of(name) == CellType::Not,
        name@ == "$pos"@ ==> cell_type_of(name) == CellType::Pos,
        name@ == "$neg"@ ==> cell_type_of(name) == CellType::Neg,
        name@ == "$reduce_and"@ ==> cell_type_of(name) == CellType::ReduceAnd,
        name@ == "$reduce_or"@ ==> cell_type_of(name) == CellType::ReduceOr,
        name@ == "$reduce_xor"@ ==> cell_type_of(name) == CellType::ReduceXor,
        name@ == "$reduce_xnor"@ ==> cell_type_of(name) == CellType::ReduceXnor,
        name@ == "$reduce_bool"@ ==> cell_type_of(name) == CellType::ReduceBool,
        name@ == "$logic_not"@ ==> cell_type_of(name) == CellType::LogicNot,
        name@ == "$and"@ ==> cell_type_of(name) == CellType::And,
        name@ == "$or"@ ==> cell_type_of(name) == CellType::Or,
        name@ == "$xor"@ ==> cell_type_of(name) == CellType::Xor,
        name@ == "$xnor"@ ==> cell_type_of(name) == CellType::Xnor,
        name@ == "$shl"@ ==> cell_type_of(name) == CellType::Shl,
        name@ == "$sshl"@ ==> cell_type_of(name) == CellType::Sshl,
        name@ == "$shr"@ ==> cell_type_of(name) == CellType::Shr,
        name@ == "$sshr"@ ==> cell_type_of(name) == CellType::Sshr,
        name@ == "$logic_and"@ ==> cell_type_of(name) == CellType::LogicAnd,
        name@ == "$logic_or"@ ==> cell_type_of(name) == CellType::LogicOr,
        name@ == "$eqx"@ ==> cell_type_of(name) == CellType::EqX,
        name@ == "$nex"@ ==> cell_type_of(name) == CellType::NeX,
        name@ == "$pow"@ ==> cell_type_of(name) == CellType::Pow,
        name@ == "$lt"@ ==> cell_type_of(name) == CellType::Lt,
        name@ == "$le"@ ==> cell_type_of(name) == CellType::Le,
        name@ == "$eq"@ ==> cell_type_of(name) == CellType::Eq,
        name@ == "$ne"@ ==> cell_type_of(name) == CellType::Ne,
        name@ == "$ge"@ ==> cell_type_of(name) == CellType::Ge,
        name@ == "$gt"@ ==> cell_type_of(name) == CellType::Gt,
        name@ == "$add"@ ==> cell_type_of(name) == CellType::Add,
        name@ == "$sub"@ ==> cell_type_of(name) == CellType::Sub,
        name@ == "$mul"@ ==> cell_type_of(name) == CellType::Mul,
        name@ == "$div"@ ==> cell_type_of(name) == CellType::Div,
        name@ == "$mod"@ ==> cell_type_of(name) == CellType::Mod,
        name@ == "$divfloor"@ ==> cell_type_of(name) == CellType::DivFloor,
        name@ == "$modfloor"@ ==> cell_type_of(name) == CellType::ModFloor,
        name@ == "$mux"@ ==> cell_type_of(name) == CellType::Mux,
        name@ == "$pmux"@ ==> cell_type_of(name) == CellType::Pmux,
        name@ == "$tribuf"@ ==> cell_type_of(name) == CellType::TriBuf,
        name@ == "$sr"@ ==> cell_type_of(name) == CellType::Sr,
        name@ == "$dff"@ ==> cell_type_of(name) == CellType::Dff,
        name@ == "$dffe"@ ==> cell_type_of(name) == CellType::Dffe,
        name@ == "$sdff"@ ==> cell_type_of(name) == CellType::Sdff,
        name@ == "$sdffe"@ ==> cell_type_of(name) == CellType::Sdffe,
        name@ == "$sdffce"@ ==> cell_type_of(name) == CellType::Sdffce,
        name@ == "$dlatch"@ ==> cell_type_of(name) == CellType::Dlatch,
        name@ == "$memrd_v2"@ ==> cell_type_of(name) == CellType::MemRdV2,
        name@ == "$memwr_v2"@ ==> cell_type_of(name) == CellType::MemWrV2,
        name@ == "$meminit_v2"@ ==> cell_type_of(name) == CellType::MemInitV2,
        name@ == "$mem_v2"@ ==> cell_type_of(name) == CellType::MemV2,
{
    reveal_strlit("$not");
    reveal_strlit("$pos");
    reveal_strlit("$neg");
    reveal_strlit("$reduce_and");
    reveal_strlit("$reduce_or");
    reveal_strlit("$reduce_xor");
    reveal_strlit("$reduce_xnor");
    reveal_strlit("$reduce_bool");
    reveal_strlit("$logic_not");
    reveal_strlit("$and");
    reveal_strlit("$or");
    reveal_strlit("$xor");
    reveal_strlit("$xnor");
    reveal_strlit("$shl");
    reveal_strlit("$sshl");
    reveal_strlit("$shr");
    reveal_strlit("$sshr");
    reveal_strlit("$logic_and");
    reveal_strlit("$logic_or");
    reveal_strlit("$eqx");
    reveal_strlit("$nex");
    reveal_strlit("$pow");
    reveal_strlit("$lt");
    reveal_strlit("$le");
    reveal_strlit("$eq");
    reveal_strlit("$ne");
    reveal_strlit("$ge");
    reveal_strlit("$gt");
    reveal_strlit("$add");
    reveal_strlit("$sub");
    reveal_strlit("$mul");
    reveal_strlit("$div");
    reveal_strlit("$mod");
    reveal_strlit("$divfloor");
    reveal_strlit("$modfloor");
    reveal_strlit("$mux");
    reveal_strlit("$pmux");
    reveal_strlit("$tribuf");
    reveal_strlit("$sr");
    reveal_strlit("$dff");
    reveal_strlit("$dffe");
    reveal_strlit("$sdff");
    reveal_strlit("$sdffe");
    reveal_strlit("$sdffce");
    reveal_strlit("$dlatch");
    reveal_strlit("$memrd_v2");
    reveal_strlit("$memwr_v2");
    reveal_strlit("$meminit_v2");
    reveal_strlit("$mem_v2");
    assert("$not"@.len() == 4);
    assert("$pos"@.len() == 4);
    assert("$neg"@.len() == 4);
    assert("$reduce_and"@.len() == 11);
    assert("$reduce_or"@.len() == 10);
    assert("$reduce_xor"@.len() == 11);
    assert("$reduce_xnor"@.len() == 12);
    assert("$reduce_bool"@.len() == 12);
    assert("$logic_not"@.len() == 10);
    assert("$and"@.len() == 4);
    assert("$or"@.len() == 3);
    assert("$xor"@.len() == 4);
    assert("$xnor"@.len() == 5);
    assert("$shl"@.len() == 4);
    assert("$sshl"@.len() == 5);
    assert("$shr"@.len() == 4);
    assert("$sshr"@.len() == 5);
    assert("$logic_and"@.len() == 10);
    assert("$logic_or"@.len() == 9);
    assert("$eqx"@.len() == 4);
    assert("$nex"@.len() == 4);
    assert("$pow"@.len() == 4);
    assert("$lt"@.len() == 3);
    assert("$le"@.len() == 3);
    assert("$eq"@.len() == 3);
    assert("$ne"@.len() == 3);
    assert("$ge"@.len() == 3);
    assert("$gt"@.len() == 3);
    assert("$add"@.len() == 4);
    assert("$sub"@.len() == 4);
    assert("$mul"@.len() == 4);
    assert("$div"@.len() == 4);
    assert("$mod"@.len() == 4);
    assert("$divfloor"@.len() == 9);
    assert("$modfloor"@.len() == 9);
    assert("$mux"@.len() == 4);
    assert("$pmux"@.len() == 5);
    assert("$tribuf"@.len() == 7);
    assert("$sr"@.len() == 3);
    assert("$dff"@.len() == 4);
    assert("$dffe"@.len() == 5);
    assert("$sdff"@.len() == 5);
    assert("$sdffe"@.len() == 6);
    assert("$sdffce"@.len() == 7);
    assert("$dlatch"@.len() == 7);
    assert("$memrd_v2"@.len() == 9);
    assert("$memwr_v2"@.len() == 9);
    assert("$meminit_v2"@.len() == 11);
    assert("$mem_v2"@.len() == 7);
    assert("$not"@[1] != "$pos"@[1]);
    assert("$not"@[2] != "$neg"@[2]);
    assert("$not"@[1] != "$and"@[1]);
    assert("$not"@[1] != "$xor"@[1]);
    assert("$not"@[1] != "$shl"@[1]);
    assert("$not"@[1] != "$shr"@[1]);
    assert("$not"@[1] != "$eqx"@[1]);
    assert("$not"@[2] != "$nex"@[2]);
    assert("$not"@[1] != "$pow"@[1]);
    assert("$not"@[1] != "$add"@[1]);
    assert("$not"@[1] != "$sub"@[1]);
    assert("$not"@[1] != "$mul"@[1]);
    assert("$not"@[1] != "$div"@[1]);
    assert("$not"@[1] != "$mod"@[1]);
    assert("$not"@[1] != "$mux"@[1]);
    assert("$not"@[1] != "$dff"@[1]);
    assert("$pos"@[1] != "$neg"@[1]);
    assert("$pos"@[1] != "$and"@[1]);
    assert("$pos"@[1] != "$xor"@[1]);
    assert("$pos"@[1] != "$shl"@[1]);
    assert("$pos"@[1] != "$shr"@[1]);
    assert("$pos"@[1] != "$eqx"@[1]);
    assert("$pos"@[1] != "$nex"@[1]);
    assert("$pos"@[3] != "$pow"@[3]);
    assert("$pos"@[1] != "$add"@[1]);
    assert("$pos"@[1] != "$sub"@[1]);
    assert("$pos"@[1] != "$mul"@[1]);
    assert("$pos"@[1] != "$div"@[1]);
    assert("$pos"@[1] != "$mod"@[1]);
    assert("$pos"@[1] != "$mux"@[1]);
    assert("$pos"@[1] != "$dff"@[1]);
    assert("$neg"@[1] != "$and"@[1]);
    assert("$neg"@[1] != "$xor"@[1]);
    assert("$neg"@[1] != "$shl"@[1]);
    assert("$neg"@[1] != "$shr"@[1]);
    assert("$neg"@[1] != "$eqx"@[1]);
    assert("$neg"@[3] != "$nex"@[3]);
    assert("$neg"@[1] != "$pow"@[1]);
    assert("$neg"@[1] != "$add"@[1]);
    assert("$neg"@[1] != "$sub"@[1]);
    assert("$neg"@[1] != "$mul"@[1]);
    assert("$neg"@[1] != "$div"@[1]);
    assert("$neg"@[1] != "$mod"@[1]);
    assert("$neg"@[1] != "$mux"@[1]);
    assert("$neg"@[1] != "$dff"@[1]);
    assert("$reduce_and"@[8] != "$reduce_xor"@[8]);
    assert("$reduce_and"@[1] != "$meminit_v2"@[1]);
    assert("$reduce_or"@[1] != "$logic_not"@[1]);
    assert("$reduce_or"@[1] != "$logic_and"@[1]);
    assert("$reduce_xor"@[1] != "$meminit_v2"@[1]);
    assert("$reduce_xnor"@[8] != "$reduce_bool"@[8]);
    assert("$logic_not"@[7] != "$logic_and"@[7]);
    assert("$and"@[1] != "$xor"@[1]);
    assert("$and"@[1] != "$shl"@[1]);
    assert("$and"@[1] != "$shr"@[1]);
    assert("$and"@[1] != "$eqx"@[1]);
    assert("$and"@[1] != "$nex"@[1]);
    assert("$and"@[1] != "$pow"@[1]);
    assert("$and"@[2] != "$add"@[2]);
    assert("$and"@[1] != "$sub"@[1]);
    assert("$and"@[1] != "$mul"@[1]);
    assert("$and"@[1] != "$div"@[1]);
    assert("$and"@[1] != "$mod"@[1]);
    assert("$and"@[1] != "$mux"@[1]);
    assert("$and"@[1] != "$dff"@[1]);
    assert("$or"@[1] != "$lt"@[1]);
    assert("$or"@[1] != "$le"@[1]);
    assert("$or"@[1] != "$eq"@[1]);
    assert("$or"@[1] != "$ne"@[1]);
    assert("$or"@[1] != "$ge"@[1]);
    assert("$or"@[1] != "$gt"@[1]);
    assert("$or"@[1] != "$sr"@[1]);
    assert("$xor"@[1] != "$shl"@[1]);
    assert("$xor"@[1] != "$shr"@[1]);
    assert("$xor"@[1] != "$eqx"@[1]);
    assert("$xor"@[1] != "$nex"@[1]);
    assert("$xor"@[1] != "$pow"@[1]);
    assert("$xor"@[1] != "$add"@[1]);
    assert("$xor"@[1] != "$sub"@[1]);
    assert("$xor"@[1] != "$mul"@[1]);
    assert("$xor"@[1] != "$div"@[1]);
    assert("$xor"@[1] != "$mod"@[1]);
    assert("$xor"@[1] != "$mux"@[1]);
    assert("$xor"@[1] != "$dff"@[1]);
    assert("$xnor"@[1] != "$sshl"@[1]);
    assert("$xnor"@[1] != "$sshr"@[1]);
    assert("$xnor"@[1] != "$pmux"@[1]);
    assert("$xnor"@[1] != "$dffe"@[1]);
    assert("$xnor"@[1] != "$sdff"@[1]);
    assert("$shl"@[3] != "$shr"@[3]);
    assert("$shl"@[1] != "$eqx"@[1]);
    assert("$shl"@[1] != "$nex"@[1]);
    assert("$shl"@[1] != "$pow"@[1]);
    assert("$shl"@[1] != "$add"@[1]);
    assert("$shl"@[2] != "$sub"@[2]);
    assert("$shl"@[1] != "$mul"@[1]);
    assert("$shl"@[1] != "$div"@[1]);
    assert("$shl"@[1] != "$mod"@[1]);
    assert("$shl"@[1] != "$mux"@[1]);
    assert("$shl"@[1] != "$dff"@[1]);
    assert("$sshl"@[4] != "$sshr"@[4]);
    assert("$sshl"@[1] != "$pmux"@[1]);
    assert("$sshl"@[1] != "$dffe"@[1]);
    assert("$sshl"@[2] != "$sdff"@[2]);
    assert("$shr"@[1] != "$eqx"@[1]);
    assert("$shr"@[1] != "$nex"@[1]);
    assert("$shr"@[1] != "$pow"@[1]);
    assert("$shr"@[1] != "$add"@[1]);
    assert("$shr"@[2] != "$sub"@[2]);
    assert("$shr"@[1] != "$mul"@[1]);
    assert("$shr"@[1] != "$div"@[1]);
    assert("$shr"@[1] != "$mod"@[1]);
    assert("$shr"@[1] != "$mux"@[1]);
    assert("$shr"@[1] != "$dff"@[1]);
    assert("$sshr"@[1] != "$pmux"@[1]);
    assert("$sshr"@[1] != "$dffe"@[1]);
    assert("$sshr"@[2] != "$sdff"@[2]);
    assert("$logic_or"@[1] != "$divfloor"@[1]);
    assert("$logic_or"@[1] != "$modfloor"@[1]);
    assert("$logic_or"@[1] != "$memrd_v2"@[1]);
    assert("$logic_or"@[1] != "$memwr_v2"@[1]);
    assert("$eqx"@[1] != "$nex"@[1]);
    assert("$eqx"@[1] != "$pow"@[1]);
    assert("$eqx"@[1] != "$add"@[1]);
    assert("$eqx"@[1] != "$sub"@[1]);
    assert("$eqx"@[1] != "$mul"@[1]);
    assert("$eqx"@[1] != "$div"@[1]);
    assert("$eqx"@[1] != "$mod"@[1]);
    assert("$eqx"@[1] != "$mux"@[1]);
    assert("$eqx"@[1] != "$dff"@[1]);
    assert("$nex"@[1] != "$pow"@[1]);
    assert("$nex"@[1] != "$add"@[1]);
    assert("$nex"@[1] != "$sub"@[1]);
    assert("$nex"@[1] != "$mul"@[1]);
    assert("$nex"@[1] != "$div"@[1]);
    assert("$nex"@[1] != "$mod"@[1]);
    assert("$nex"@[1] != "$mux"@[1]);
    assert("$nex"@[1] != "$dff"@[1]);
    assert("$pow"@[1] != "$add"@[1]);
    assert("$pow"@[1] != "$sub"@[1]);
    assert("$pow"@[1] != "$mul"@[1]);
    assert("$pow"@[1] != "$div"@[1]);
    assert("$pow"@[1] != "$mod"@[1]);
    assert("$pow"@[1] != "$mux"@[1]);
    assert("$pow"@[1] != "$dff"@[1]);
    assert("$lt"@[2] != "$le"@[2]);
    assert("$lt"@[1] != "$eq"@[1]);
    assert("$lt"@[1] != "$ne"@[1]);
    assert("$lt"@[1] != "$ge"@[1]);
    assert("$lt"@[1] != "$gt"@[1]);
    assert("$lt"@[1] != "$sr"@[1]);
    assert("$le"@[1] != "$eq"@[1]);
    assert("$le"@[1] != "$ne"@[1]);
    assert("$le"@[1] != "$ge"@[1]);
    assert("$le"@[1] != "$gt"@[1]);
    assert("$le"@[1] != "$sr"@[1]);
    assert("$eq"@[1] != "$ne"@[1]);
    assert("$eq"@[1] != "$ge"@[1]);
    assert("$eq"@[1] != "$gt"@[1]);
    assert("$eq"@[1] != "$sr"@[1]);
    assert("$ne"@[1] != "$ge"@[1]);
    assert("$ne"@[1] != "$gt"@[1]);
    assert("$ne"@[1] != "$sr"@[1]);
    assert("$ge"@[2] != "$gt"@[2]);
    assert("$ge"@[1] != "$sr"@[1]);
    assert("$gt"@[1] != "$sr"@[1]);
    assert("$add"@[1] != "$sub"@[1]);
    assert("$add"@[1] != "$mul"@[1]);
    assert("$add"@[1] != "$div"@[1]);
    assert("$add"@[1] != "$mod"@[1]);
    assert("$add"@[1] != "$mux"@[1]);
    assert("$add"@[1] != "$dff"@[1]);
    assert("$sub"@[1] != "$mul"@[1]);
    assert("$sub"@[1] != "$div"@[1]);
    assert("$sub"@[1] != "$mod"@[1]);
    assert("$sub"@[1] != "$mux"@[1]);
    assert("$sub"@[1] != "$dff"@[1]);
    assert("$mul"@[1] != "$div"@[1]);
    assert("$mul"@[2] != "$mod"@[2]);
    assert("$mul"@[3] != "$mux"@[3]);
    assert("$mul"@[1] != "$dff"@[1]);
    assert("$div"@[1] != "$mod"@[1]);
    assert("$div"@[1] != "$mux"@[1]);
    assert("$div"@[2] != "$dff"@[2]);
    assert("$mod"@[2] != "$mux"@[2]);
    assert("$mod"@[1] != "$dff"@[1]);
    assert("$divfloor"@[1] != "$modfloor"@[1]);
    assert("$divfloor"@[1] != "$memrd_v2"@[1]);
    assert("$divfloor"@[1] != "$memwr_v2"@[1]);
    assert("$modfloor"@[2] != "$memrd_v2"@[2]);
    assert("$modfloor"@[2] != "$memwr_v2"@[2]);
    assert("$mux"@[1] != "$dff"@[1]);
    assert("$pmux"@[1] != "$dffe"@[1]);
    assert("$pmux"@[1] != "$sdff"@[1]);
    assert("$tribuf"@[1] != "$sdffce"@[1]);
    assert("$tribuf"@[1] != "$dlatch"@[1]);
    assert("$tribuf"@[1] != "$mem_v2"@[1]);
    assert("$dffe"@[1] != "$sdff"@[1]);
    assert("$sdffce"@[1] != "$dlatch"@[1]);
    assert("$sdffce"@[1] != "$mem_v2"@[1]);
    assert("$dlatch"@[1] != "$mem_v2"@[1]);
    assert("$memrd_v2"@[4] != "$memwr_v2"@[4]);
}

/// Whether the string is the given name
pub(crate) fn is_named(value: &String, name: &str) -> (r: bool)
    ensures
        r == (value@ == name@),
{
    *value == name.to_owned()
}

impl From<String> for CellType {
    fn from(value: String) -> (r: CellType) {
        if is_named(&value, "$not") {
            CellType::Not
        } else         if is_named(&value, "$pos") {
            CellType::Pos
        } else         if is_named(&value, "$neg") {
            CellType::Neg
        } else         if is_named(&value, "$reduce_and") {
            CellType::ReduceAnd
        } else         if is_named(&value, "$reduce_or") {
            CellType::ReduceOr
        } else         if is_named(&value, "$reduce_xor") {
            CellType::ReduceXor
        } else         if is_named(&value, "$reduce_xnor") {
            CellType::ReduceXnor
        } else         if is_named(&value, "$reduce_bool") {
            CellType::ReduceBool
        } else         if is_named(&value, "$logic_not") {
            CellType::LogicNot
        } else         if is_named(&value, "$and") {
            CellType::And
        } else         if is_named(&value, "$or") {
            CellType::Or
        } else         if is_named(&value, "$xor") {
            CellType::Xor
        } else         if is_named(&value, "$xnor") {
            CellType::Xnor
        } else         if is_named(&value, "$shl") {
            CellType::Shl
        } else         if is_named(&value, "$sshl") {
            CellType::Sshl
        } else         if is_named(&value, "$shr") {
            CellType::Shr
        } else         if is_named(&value, "$sshr") {
            CellType::Sshr
        } else         if is_named(&value, "$logic_and") {
            CellType::LogicAnd
        } else         if is_named(&value, "$logic_or") {
            CellType::LogicOr
        } else         if is_named(&value, "$eqx") {
            CellType::EqX
        } else         if is_named(&value, "$nex") {
            CellType::NeX
        } else         if is_named(&value, "$pow") {
            CellType::Pow
        } else         if is_named(&value, "$lt") {
            CellType::Lt
        } else         if is_named(&value, "$le") {
            CellType::Le
        } else         if is_named(&value, "$eq") {
            CellType::Eq
        } else         if is_named(&value, "$ne") {
            CellType::Ne
        } else         if is_named(&value, "$ge") {
            CellType::Ge
        } else         if is_named(&value, "$gt") {
            CellType::Gt
        } else         if is_named(&value, "$add") {
            CellType::Add
        } else         if is_named(&value, "$sub") {
            CellType::Sub
        } else         if is_named(&value, "$mul") {
            CellType::Mul
        } else         if is_named(&value, "$div") {
            CellType::Div
        } else         if is_named(&value, "$mod") {
            CellType::Mod
        } else         if is_named(&value, "$divfloor") {
            CellType::DivFloor
        } else         if is_named(&value, "$modfloor") {
            CellType::ModFloor
        } else         if is_named(&value, "$mux") {
            CellType::Mux
        } else         if is_named(&value, "$pmux") {
            CellType::Pmux
        } else         if is_named(&value, "$tribuf") {
            CellType::TriBuf
        } else         if is_named(&value, "$sr") {
            CellType::Sr
        } else         if is_named(&value, "$dff") {
            CellType::Dff
        } else         if is_named(&value, "$dffe") {
            CellType::Dffe
        } else         if is_named(&value, "$sdff") {
            CellType::Sdff
        } else         if is_named(&value, "$sdffe") {
            CellType::Sdffe
        } else         if is_named(&value, "$sdffce") {
            CellType::Sdffce
        } else         if is_named(&value, "$dlatch") {
            CellType::Dlatch
        } else         if is_named(&value, "$memrd_v2") {
            CellType::MemRdV2
        } else         if is_named(&value, "$memwr_v2") {
            CellType::MemWrV2
        } else         if is_named(&value, "$meminit_v2") {
            CellType::MemInitV2
        } else         if is_named(&value, "$mem_v2") {
            CellType::MemV2
        } else {
            CellType::Unknown(value)
        }
    }
}

impl CellType {
    /// A copy of the cell type
    pub fn duplicate(&self) -> (r: CellType)
        ensures
            r == *self,
    {
        match self {
            CellType::Not => CellType::Not,
            CellType::Pos => CellType::Pos,
            CellType::Neg => CellType::Neg,
            CellType::ReduceAnd => CellType::ReduceAnd,
            CellType::ReduceOr => CellType::ReduceOr,
            CellType::ReduceXor => CellType::ReduceXor,
            CellType::ReduceXnor => CellType::ReduceXnor,
            CellType::ReduceBool => CellType::ReduceBool,
            CellType::LogicNot => CellType::LogicNot,
            CellType::And => CellType::And,
            CellType::Or => CellType::Or,
            CellType::Xor => CellType::Xor,
            CellType::Xnor => CellType::Xnor,
            CellType::Shl => CellType::Shl,
            CellType::Sshl => CellType::Sshl,
            CellType::Shr => CellType::Shr,
            CellType::Sshr => CellType::Sshr,
            CellType::LogicAnd => CellType::LogicAnd,
            CellType::LogicOr => CellType::LogicOr,
            CellType::EqX => CellType::EqX,
            CellType::NeX => CellType::NeX,
            CellType::Pow => CellType::Pow,
            CellType::Lt => CellType::Lt,
            CellType::Le => CellType::Le,
            CellType::Eq => CellType::Eq,
            CellType::Ne => CellType::Ne,
            CellType::Ge => CellType::Ge,
            CellType::Gt => CellType::Gt,
            CellType::Add => CellType::Add,
            CellType::Sub => CellType::Sub,
            CellType::Mul => CellType::Mul,
            CellType::Div => CellType::Div,
            CellType::Mod => CellType::Mod,
            CellType::DivFloor => CellType::DivFloor,
            CellType::ModFloor => CellType::ModFloor,
            CellType::Mux => CellType::Mux,
            CellType::Pmux => CellType::Pmux,
            CellType::TriBuf => CellType::TriBuf,
            CellType::Sr => CellType::Sr,
            CellType::Dff => CellType::Dff,
            CellType::Dffe => CellType::Dffe,
            CellType::Sdff => CellType::Sdff,
            CellType::Sdffe => CellType::Sdffe,
            CellType::Sdffce => CellType::Sdffce,
            CellType::Dlatch => CellType::Dlatch,
            CellType::MemRdV2 => CellType::MemRdV2,
            CellType::MemWrV2 => CellType::MemWrV2,
            CellType::MemInitV2 => CellType::MemInitV2,
            CellType::MemV2 => CellType::MemV2,
            CellType::Unknown(name) => CellType::Unknown(name.clone()),
        }
    }
}

impl FromSpecImpl<String> for CellType {
    open spec fn obeys_from_spec() -> bool {
        true
    }

    open spec fn from_spec(v: String) -> CellType {
        cell_type_of(v)
    }
}

/// An error that can occur while importing a Yosys module
#[derive(Debug)]
pub enum YosysModuleImportError {
    /// The simulator's resource limit was reached while constructing the module
    ResourceLimitReached,
    /// The module has an `inout` port
    InOutPort {
        /// The name of the `inout` port
        port_name: String,
    },
    /// The module contains a cell that has an `inout` port
    CellInOutPort {
        /// The name of the cell
        cell_name: String,
        /// The name of the `inout` port
        port_name: String,
    },
    /// The module or one of its cells has a port that is wider than the widest wire
    UnsupportedWireWidth {
        /// The width of the wire
        wire_width: usize,
    },
    /// The module contains a cell of unknown type
    UnknownCellType {
        /// The name of the cell
        cell_name: String,
        /// The unknown type of the cell
        cell_type: String,
    },
    /// The module contains a cell that is not supported for importing
    UnsupportedCellType {
        /// The name of the cell
        cell_name: String,
        /// The type of the cell
        cell_type: CellType,
    },
    /// The module contains a cell that has a port with no specified direction
    MissingCellPortDirection {
        /// The name of the cell
        cell_name: String,
        /// The name of the port
        port_name: String,
    },
    /// The module contains a cell with an invalid port configuration
    InvalidCellPorts {
        /// The name of the cell
        cell_name: String,
    },
    /// The module contains a cell with an invalid parameter configuration
    InvalidCellParameters {
        /// The name of the cell
        cell_name: String,
    },
    /// A port of the module or of a cell connects to part of a bus, or to parts of several
    /// buses: joining them would take slice and merge components, which the builder does not
    /// offer
    SplitBus,
}

} // verus!
