//! The instructions of a method body, as far as the rewriting reads or writes them.
use vstd::prelude::*;

use crate::dex_types::{DexType, IdMethod, MethodV, TyV};

verus! {

/// The comparison of a conditional branch.
#[derive(Debug, Clone, Copy, PartialEq, Eq, Structural)]
pub enum IfTest {
    Eq,
    Ne,
    Lt,
    Ge,
    Gt,
    Le,
    EqZ,
    NeZ,
    LtZ,
    GeZ,
    GtZ,
    LeZ,
}

/// The dispatch of an invoke instruction.
#[derive(Debug, Clone, Copy, PartialEq, Eq, Structural)]
pub enum InvokeKind {
    Virtual,
    Super,
    Direct,
    Static,
    Interface,
}

/// One instruction, or one pseudo-instruction (a label, the start of a try region, debug
/// information). An instruction that the rewriting neither inspects nor emits is `Other`: it
/// keeps its position `origin` in the decoded method, whether it is a pseudo-instruction, and
/// whether it may throw (a polymorphic or custom invoke).
#[derive(Debug)]
pub enum Instruction {
    Label { name: String },
    /// Start of a try region that ends at the label `end_label`; `handlers` are the labels of
    /// its catch handlers, paired with the caught type, then the catch-all handler if any.
    Try { end_label: String, handlers: Vec<(DexType, String)>, default_handler: Option<String> },
    Goto { label: String },
    If { test: IfTest, a: u16, b: u16, label: String },
    Switch { reg: u16, branches: Vec<(i32, String)> },
    ReturnVoid,
    Return { reg: u16 },
    ReturnWide { reg: u16 },
    ReturnObject { reg: u16 },
    Throw { reg: u16 },
    Invoke { kind: InvokeKind, method: IdMethod, args: Vec<u16> },
    Move { from: u16, to: u16 },
    MoveWide { from: u16, to: u16 },
    MoveObject { from: u16, to: u16 },
    MoveResult { to: u8 },
    MoveResultWide { to: u8 },
    MoveResultObject { to: u8 },
    Const { reg: u8, lit: i32 },
    ConstString { reg: u8, lit: String },
    ConstClass { reg: u8, lit: DexType },
    CheckCast { reg: u8, lit: DexType },
    NewInstance { reg: u8, lit: DexType },
    ArrayLength { dest: u8, arr: u8 },
    AGetObject { dest: u8, arr: u8, idx: u8 },
    Other { origin: usize, pseudo: bool, may_throw: bool },
}

impl Instruction {
    /// Pseudo-instructions take no place in the executed code.
    pub open spec fn spec_is_pseudo(&self) -> bool {
        match self {
            Instruction::Label { .. } | Instruction::Try { .. } => true,
            Instruction::Other { pseudo, .. } => *pseudo,
            _ => false,
        }
    }

    #[verifier::when_used_as_spec(spec_is_pseudo)]
    pub fn is_pseudo(&self) -> (r: bool)
        ensures
            r == self.spec_is_pseudo(),
    {
        match self {
            Instruction::Label { .. } | Instruction::Try { .. } => true,
            Instruction::Other { pseudo, .. } => *pseudo,
            _ => false,
        }
    }

    /// Instructions that may raise an exception, and so leave a try region for its handlers.
    pub open spec fn may_throw(&self) -> bool {
        match self {
            Instruction::Throw { .. } => true,
            Instruction::Invoke { .. } => true,
            Instruction::Other { may_throw, .. } => *may_throw,
            _ => false,
        }
    }

    /// Instructions after which execution never goes on with the next one.
    pub open spec fn ends_flow(&self) -> bool {
        match self {
            Instruction::Goto { .. } | Instruction::ReturnVoid | Instruction::Return { .. }
            | Instruction::ReturnWide { .. } | Instruction::ReturnObject { .. }
            | Instruction::Throw { .. } => true,
            _ => false,
        }
    }
}

/// The model of an [`Instruction`]: names as character sequences, types and methods as
/// their models.
pub enum InsV {
    Label { name: Seq<char> },
    Try { end_label: Seq<char>, handlers: Seq<(TyV, Seq<char>)>, default_handler: Option<Seq<char>> },
    Goto { label: Seq<char> },
    If { test: IfTest, a: u16, b: u16, label: Seq<char> },
    Switch { reg: u16, branches: Seq<(i32, Seq<char>)> },
    ReturnVoid,
    Return { reg: u16 },
    ReturnWide { reg: u16 },
    ReturnObject { reg: u16 },
    Throw { reg: u16 },
    Invoke { kind: InvokeKind, method: MethodV, args: Seq<u16> },
    Move { from: u16, to: u16 },
    MoveWide { from: u16, to: u16 },
    MoveObject { from: u16, to: u16 },
    MoveResult { to: u8 },
    MoveResultWide { to: u8 },
    MoveResultObject { to: u8 },
    Const { reg: u8, lit: i32 },
    ConstString { reg: u8, lit: Seq<char> },
    ConstClass { reg: u8, lit: TyV },
    CheckCast { reg: u8, lit: TyV },
    NewInstance { reg: u8, lit: TyV },
    ArrayLength { dest: u8, arr: u8 },
    AGetObject { dest: u8, arr: u8, idx: u8 },
    Other { origin: usize, pseudo: bool, may_throw: bool },
}

impl View for Instruction {
    type V = InsV;

    open spec fn view(&self) -> InsV {
        match self {
            Instruction::Label { name } => InsV::Label { name: name@ },
            Instruction::Try { end_label, handlers, default_handler } => InsV::Try {
                end_label: end_label@,
                handlers: handlers@.map_values(|h: (DexType, String)| (h.0@, h.1@)),
                default_handler: match default_handler {
                    Some(d) => Some(d@),
                    None => None,
                },
            },
            Instruction::Goto { label } => InsV::Goto { label: label@ },
            Instruction::If { test, a, b, label } => InsV::If { test: *test, a: *a, b: *b, label: label@ },
            Instruction::Switch { reg, branches } => InsV::Switch {
                reg: *reg,
                branches: branches@.map_values(|x: (i32, String)| (x.0, x.1@)),
            },
            Instruction::ReturnVoid => InsV::ReturnVoid,
            Instruction::Return { reg } => InsV::Return { reg: *reg },
            Instruction::ReturnWide { reg } => InsV::ReturnWide { reg: *reg },
            Instruction::ReturnObject { reg } => InsV::ReturnObject { reg: *reg },
            Instruction::Throw { reg } => InsV::Throw { reg: *reg },
            Instruction::Invoke { kind, method, args } => InsV::Invoke {
                kind: *kind,
                method: method@,
                args: args@,
            },
            Instruction::Move { from, to } => InsV::Move { from: *from, to: *to },
            Instruction::MoveWide { from, to } => InsV::MoveWide { from: *from, to: *to },
            Instruction::MoveObject { from, to } => InsV::MoveObject { from: *from, to: *to },
            Instruction::MoveResult { to } => InsV::MoveResult { to: *to },
            Instruction::MoveResultWide { to } => InsV::MoveResultWide { to: *to },
            Instruction::MoveResultObject { to } => InsV::MoveResultObject { to: *to },
            Instruction::Const { reg, lit } => InsV::Const { reg: *reg, lit: *lit },
            Instruction::ConstString { reg, lit } => InsV::ConstString { reg: *reg, lit: lit@ },
            Instruction::ConstClass { reg, lit } => InsV::ConstClass { reg: *reg, lit: lit@ },
            Instruction::CheckCast { reg, lit } => InsV::CheckCast { reg: *reg, lit: lit@ },
            Instruction::NewInstance { reg, lit } => InsV::NewInstance { reg: *reg, lit: lit@ },
            Instruction::ArrayLength { dest, arr } => InsV::ArrayLength { dest: *dest, arr: *arr },
            Instruction::AGetObject { dest, arr, idx } => InsV::AGetObject {
                dest: *dest,
                arr: *arr,
                idx: *idx,
            },
            Instruction::Other { origin, pseudo, may_throw } => InsV::Other {
                origin: *origin,
                pseudo: *pseudo,
                may_throw: *may_throw,
            },
        }
    }
}

/// The models of a list of instructions.
pub open spec fn insns_view(v: Seq<Instruction>) -> Seq<InsV> {
    v.map_values(|i: Instruction| i@)
}

fn duplicate_handlers(hs: &Vec<(DexType, String)>) -> (r: Vec<(DexType, String)>)
    ensures
        r@.map_values(|h: (DexType, String)| (h.0@, h.1@)) == hs@.map_values(
            |h: (DexType, String)| (h.0@, h.1@),
        ),
{
    let mut r: Vec<(DexType, String)> = Vec::new();
    let mut i: usize = 0;
    while i < hs.len()
        invariant
            i <= hs@.len(),
            r@.len() == i,
            forall|k: int| 0 <= k < i ==> (#[trigger] r@[k]).0@ == hs@[k].0@ && r@[k].1@ == hs@[k].1@,
        decreases hs@.len() - i,
    {
        r.push((hs[i].0.duplicate(), hs[i].1.clone()));
        i += 1;
    }
    assert(r@.map_values(|h: (DexType, String)| (h.0@, h.1@)) =~= hs@.map_values(
        |h: (DexType, String)| (h.0@, h.1@),
    ));
    r
}

fn duplicate_branches(bs: &Vec<(i32, String)>) -> (r: Vec<(i32, String)>)
    ensures
        r@.map_values(|x: (i32, String)| (x.0, x.1@)) == bs@.map_values(
            |x: (i32, String)| (x.0, x.1@),
        ),
{
    let mut r: Vec<(i32, String)> = Vec::new();
    let mut i: usize = 0;
    while i < bs.len()
        invariant
            i <= bs@.len(),
            r@.len() == i,
            forall|k: int| 0 <= k < i ==> (#[trigger] r@[k]).0 == bs@[k].0 && r@[k].1@ == bs@[k].1@,
        decreases bs@.len() - i,
    {
        r.push((bs[i].0, bs[i].1.clone()));
        i += 1;
    }
    assert(r@.map_values(|x: (i32, String)| (x.0, x.1@)) =~= bs@.map_values(
        |x: (i32, String)| (x.0, x.1@),
    ));
    r
}

fn duplicate_regs(v: &Vec<u16>) -> (r: Vec<u16>)
    ensures
        r@ == v@,
{
    let mut r: Vec<u16> = Vec::new();
    let mut i: usize = 0;
    while i < v.len()
        invariant
            i <= v@.len(),
            r@ == v@.take(i as int),
        decreases v@.len() - i,
    {
        r.push(v[i]);
        i += 1;
        assert(r@ =~= v@.take(i as int));
    }
    assert(v@.take(i as int) =~= v@);
    r
}

impl Instruction {
    /// A copy with the same model.
    pub fn duplicate(&self) -> (r: Instruction)
        ensures
            r@ == self@,
    {
        match self {
            Instruction::Label { name } => Instruction::Label { name: name.clone() },
            Instruction::Try { end_label, handlers, default_handler } => Instruction::Try {
                end_label: end_label.clone(),
                handlers: duplicate_handlers(handlers),
                default_handler: match default_handler {
                    Some(d) => Some(d.clone()),
                    None => None,
                },
            },
            Instruction::Goto { label } => Instruction::Goto { label: label.clone() },
            Instruction::If { test, a, b, label } => Instruction::If {
                test: *test,
                a: *a,
                b: *b,
                label: label.clone(),
            },
            Instruction::Switch { reg, branches } => Instruction::Switch {
                reg: *reg,
                branches: duplicate_branches(branches),
            },
            Instruction::ReturnVoid => Instruction::ReturnVoid,
            Instruction::Return { reg } => Instruction::Return { reg: *reg },
            Instruction::ReturnWide { reg } => Instruction::ReturnWide { reg: *reg },
            Instruction::ReturnObject { reg } => Instruction::ReturnObject { reg: *reg },
            Instruction::Throw { reg } => Instruction::Throw { reg: *reg },
            Instruction::Invoke { kind, method, args } => Instruction::Invoke {
                kind: *kind,
                method: method.duplicate(),
                args: duplicate_regs(args),
            },
            Instruction::Move { from, to } => Instruction::Move { from: *from, to: *to },
            Instruction::MoveWide { from, to } => Instruction::MoveWide { from: *from, to: *to },
            Instruction::MoveObject { from, to } => Instruction::MoveObject { from: *from, to: *to },
            Instruction::MoveResult { to } => Instruction::MoveResult { to: *to },
            Instruction::MoveResultWide { to } => Instruction::MoveResultWide { to: *to },
            Instruction::MoveResultObject { to } => Instruction::MoveResultObject { to: *to },
            Instruction::Const { reg, lit } => Instruction::Const { reg: *reg, lit: *lit },
            Instruction::ConstString { reg, lit } => Instruction::ConstString {
                reg: *reg,
                lit: lit.clone(),
            },
            Instruction::ConstClass { reg, lit } => Instruction::ConstClass {
                reg: *reg,
                lit: lit.duplicate(),
            },
            Instruction::CheckCast { reg, lit } => Instruction::CheckCast {
                reg: *reg,
                lit: lit.duplicate(),
            },
            Instruction::NewInstance { reg, lit } => Instruction::NewInstance {
                reg: *reg,
                lit: lit.duplicate(),
            },
            Instruction::ArrayLength { dest, arr } => Instruction::ArrayLength {
                dest: *dest,
                arr: *arr,
            },
            Instruction::AGetObject { dest, arr, idx } => Instruction::AGetObject {
                dest: *dest,
                arr: *arr,
                idx: *idx,
            },
            Instruction::Other { origin, pseudo, may_throw } => Instruction::Other {
                origin: *origin,
                pseudo: *pseudo,
                may_throw: *may_throw,
            },
        }
    }
}

} // verus!
