//! Rewriting of Android bytecode: reflective calls become guarded direct calls, and code
//! loaded at run time by other class loaders is merged back into the application.
use vstd::prelude::*;

pub mod code_analysis;
pub mod code_loading_patcher;
pub mod dex_types;
pub mod get_apk;
pub mod instructions;
pub mod labels;
pub mod reflection_patcher;
pub mod register_manipulation;
pub mod runtime_data;

use crate::dex_types::IdMethod;
use crate::instructions::Instruction;
use crate::labels::{addr_label, addr_label_of};
use crate::reflection_patcher::{reflection_kind, reflection_kind_of};

verus! {

/// Labels the instructions of interest while the code is decoded: a call to
/// `Method.invoke`, `Class.newInstance` or `Constructor.newInstance` at the address `addr`
/// gets the label `THESEUS_ADDR_<addr>`, other instructions none.
pub fn labeling(_mth: &IdMethod, ins: &Instruction, addr: usize) -> (r: Option<String>)
    ensures
        r is Some <==> reflection_kind(ins@) is Some,
        r matches Some(l) ==> l@ == addr_label_of(addr as nat),
{
    match reflection_kind_of(ins) {
        Some(_) => Some(addr_label(addr)),
        None => None,
    }
}

} // verus!
