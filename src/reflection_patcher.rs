//! The rewriting of reflective call sites into guarded direct calls.
use vstd::prelude::*;

use crate::dex_types::{
    class_new_inst, cnstr_new_inst, mth_invoke, box_method, boxed_type, get_obj_of_scalar, get_obj_to_scalar_method, get_scalar_to_obj_method,
    object_ty, object_type, params_width, unbox_method, DexType, IdMethod, MethodV, TyV,
};
use crate::instructions::{insns_view, IfTest, InsV, Instruction, InvokeKind};
use crate::labels::hex_pad;
use crate::register_manipulation::{
    chosen, needs_pair, needs_single, pair_part, pick_pair, pick_single, single_part, used_after_pair,
    used_after_single, RegType, RegistersInfo, Slot,
};
use crate::runtime_data::{
    class_new_inst_at, cnstr_new_inst_at, invoke_at, static_target, ReflectionClassNewInstData,
    ReflectionCnstrNewInstData, ReflectionInvokeData, RuntimeData,
};

verus! {

/// The code of a method: the size of its register file, how many of the last registers hold
/// the incoming parameters, and its instructions.
#[derive(Debug)]
pub struct Code {
    pub registers_size: u16,
    pub ins_size: u16,
    pub insns: Vec<Instruction>,
}

/// A method: its identifier, whether it is static, whether it is final, and its code if it has
/// one.
#[derive(Debug)]
pub struct Method {
    pub descriptor: IdMethod,
    pub is_static: bool,
    pub is_final: bool,
    pub code: Option<Code>,
}

/// The instructions that read the parameter `i` of type `p` from the argument array `arr`
/// and place it in `dest` (and `dest + 1` when wide): references are cast to their type,
/// scalars are cast to their boxing class and unboxed.
pub open spec fn unpack_one(p: TyV, i: int, arr: u8, dest: u16, ri: RegistersInfo) -> Seq<InsV> {
    let av = ri.array_val;
    seq![
        InsV::Const { reg: ri.array_index, lit: i as i32 },
        InsV::AGetObject { dest: av, arr, idx: ri.array_index },
    ] + if p.is_ref() {
        seq![InsV::CheckCast { reg: av, lit: p }, InsV::MoveObject { from: av as u16, to: dest }]
    } else if p.is_wide() {
        seq![
            InsV::CheckCast { reg: av, lit: boxed_type(p) },
            InsV::Invoke { kind: InvokeKind::Virtual, method: unbox_method(p), args: seq![av as u16] },
            InsV::MoveResultWide { to: av },
            InsV::MoveWide { from: av as u16, to: dest },
        ]
    } else {
        seq![
            InsV::CheckCast { reg: av, lit: boxed_type(p) },
            InsV::Invoke { kind: InvokeKind::Virtual, method: unbox_method(p), args: seq![av as u16] },
            InsV::MoveResult { to: av },
            InsV::Move { from: av as u16, to: dest },
        ]
    }
}

/// The instructions that unpack all of `ps` from the array `arr` into consecutive registers
/// from `first` on, wide parameters taking two.
pub open spec fn unpack_all(ps: Seq<TyV>, arr: u8, first: int, ri: RegistersInfo) -> Seq<InsV>
    decreases ps.len(),
{
    if ps.len() == 0 {
        seq![]
    } else {
        unpack_all(ps.drop_last(), arr, first, ri) + unpack_one(
            ps.last(),
            ps.len() - 1,
            arr,
            (first + params_width(ps.drop_last())) as u16,
            ri,
        )
    }
}

/// The instructions of [`get_args_from_obj_arr`]: when the array register cannot be named by
/// a 4-bit operand it is first moved to the `array` scratch register, and moved back after.
pub open spec fn args_from_array(ps: Seq<TyV>, array_reg: u16, first: u16, ri: RegistersInfo) -> Seq<
    InsV,
> {
    if array_reg <= 15 {
        unpack_all(ps, array_reg as u8, first as int, ri)
    } else {
        seq![InsV::MoveObject { from: array_reg, to: ri.array as u16 }] + unpack_all(
            ps,
            ri.array,
            first as int,
            ri,
        ) + seq![InsV::MoveObject { from: ri.array as u16, to: array_reg }]
    }
}

/// Parameters that can be passed: references and scalars.
pub open spec fn passable(ps: Seq<TyV>) -> bool {
    forall|i: int| 0 <= i < ps.len() ==> (#[trigger] ps[i]).is_ref() || ps[i].is_scalar()
}

fn unpack_one_exec(p: &DexType, i: usize, arr: u8, dest: u16, ri: &RegistersInfo) -> (r: Vec<
    Instruction,
>)
    requires
        p@.is_ref() || p@.is_scalar(),
        i <= i32::MAX,
    ensures
        insns_view(r@) == unpack_one(p@, i as int, arr, dest, *ri),
{
    let av = ri.array_val;
    let mut r = vec![
        Instruction::Const { reg: ri.array_index, lit: i as i32 },
        Instruction::AGetObject { dest: av, arr, idx: ri.array_index },
    ];
    if p.is_ref() {
        r.push(Instruction::CheckCast { reg: av, lit: p.duplicate() });
        r.push(Instruction::MoveObject { from: av as u16, to: dest });
    } else {
        let boxed = match get_obj_of_scalar(p) {
            Ok(b) => b,
            Err(_) => {
                assert(false);
                return r;
            },
        };
        let unbox = match get_obj_to_scalar_method(p) {
            Ok(m) => m,
            Err(_) => {
                assert(false);
                return r;
            },
        };
        let args = vec![av as u16];
        assert(args@ =~= seq![av as u16]);
        r.push(Instruction::CheckCast { reg: av, lit: boxed });
        r.push(Instruction::Invoke { kind: InvokeKind::Virtual, method: unbox, args });
        if p.is_wide() {
            r.push(Instruction::MoveResultWide { to: av });
            r.push(Instruction::MoveWide { from: av as u16, to: dest });
        } else {
            r.push(Instruction::MoveResult { to: av });
            r.push(Instruction::Move { from: av as u16, to: dest });
        }
    }
    assert(insns_view(r@) =~= unpack_one(p@, i as int, arr, dest, *ri));
    r
}

/// Generates the code that reads the parameters of types `params` from the `Object[]` in
/// `array_reg` into consecutive registers from `first_arg_reg` on.
pub fn get_args_from_obj_arr(
    params: &Vec<DexType>,
    array_reg: u16,
    first_arg_reg: u16,
    reg_inf: &RegistersInfo,
) -> (r: Vec<Instruction>)
    requires
        passable(params@.map_values(|t: DexType| t@)),
        first_arg_reg + params_width(params@.map_values(|t: DexType| t@)) <= u16::MAX,
        params@.len() <= i32::MAX,
    ensures
        insns_view(r@) == args_from_array(
            params@.map_values(|t: DexType| t@),
            array_reg,
            first_arg_reg,
            *reg_inf,
        ),
{
    let ghost ps = params@.map_values(|t: DexType| t@);
    let mut insns: Vec<Instruction> = Vec::new();
    let arr: u8 = if array_reg <= 15 {
        array_reg as u8
    } else {
        insns.push(Instruction::MoveObject { from: array_reg, to: reg_inf.array as u16 });
        reg_inf.array
    };
    let ghost start = insns_view(insns@);
    let mut width: u16 = 0;
    let mut i: usize = 0;
    while i < params.len()
        invariant
            ps == params@.map_values(|t: DexType| t@),
            passable(ps),
            i <= params@.len(),
            params@.len() <= i32::MAX,
            first_arg_reg + params_width(ps) <= u16::MAX,
            width == params_width(ps.take(i as int)),
            insns_view(insns@) == start + unpack_all(ps.take(i as int), arr, first_arg_reg as int, *reg_inf),
        decreases params@.len() - i,
    {
        proof {
            assert(ps.take(i as int + 1).drop_last() =~= ps.take(i as int));
            assert(ps.take(i as int + 1).last() == params@[i as int]@);
            lemma_width_prefix(ps, i as int + 1);
        }
        let mut one = unpack_one_exec(&params[i], i, arr, first_arg_reg + width, reg_inf);
        let ghost before = insns_view(insns@);
        insns.append(&mut one);
        assert(insns_view(insns@) =~= before + unpack_one(
            ps[i as int],
            i as int,
            arr,
            (first_arg_reg + width) as u16,
            *reg_inf,
        ));
        if params[i].is_wide() {
            width = width + 2;
        } else {
            width = width + 1;
        }
        i += 1;
    }
    assert(ps.take(i as int) =~= ps);
    assert(array_reg <= 15 ==> start =~= Seq::<InsV>::empty());
    assert(array_reg > 15 ==> start =~= seq![InsV::MoveObject { from: array_reg, to: reg_inf.array as u16 }]);
    if array_reg > 15 {
        insns.push(Instruction::MoveObject { from: reg_inf.array as u16, to: array_reg });
    }
    assert(insns_view(insns@) =~= args_from_array(ps, array_reg, first_arg_reg, *reg_inf));
    insns
}

/// The width of a prefix is at most the width of the whole list.
proof fn lemma_width_prefix(ps: Seq<TyV>, i: int)
    requires
        0 <= i <= ps.len(),
    ensures
        params_width(ps.take(i)) <= params_width(ps),
    decreases ps.len() - i,
{
    if i < ps.len() {
        lemma_width_prefix(ps, i + 1);
        assert(ps.take(i + 1).drop_last() =~= ps.take(i));
    } else {
        assert(ps.take(i) =~= ps);
    }
}

/// A method of a platform class, as a model.
pub open spec fn pm(class: Seq<char>, name: Seq<char>, params: Seq<TyV>, ret: TyV) -> MethodV {
    MethodV { class_: TyV::Class { name: class, platform: true }, name, params, ret }
}

pub open spec fn class_ty() -> TyV {
    TyV::Class { name: "java/lang/Class"@, platform: true }
}

pub open spec fn string_ty() -> TyV {
    TyV::Class { name: "java/lang/String"@, platform: true }
}

/// The reflection class of the tested object: `Constructor` or `Method`.
pub open spec fn reflect_class(is_constructor: bool) -> Seq<char> {
    if is_constructor {
        "java/lang/reflect/Constructor"@
    } else {
        "java/lang/reflect/Method"@
    }
}

/// `getParameterTypes()` of `Method` or `Constructor`.
pub open spec fn get_params_ty(is_constructor: bool) -> MethodV {
    pm(reflect_class(is_constructor), "getParameterTypes"@, seq![], TyV::Array { elem: Box::new(class_ty()) })
}

/// `getDeclaringClass()` of `Method` or `Constructor`.
pub open spec fn get_dec_cls(is_constructor: bool) -> MethodV {
    pm(reflect_class(is_constructor), "getDeclaringClass"@, seq![], class_ty())
}

/// `Method.getName()`.
pub open spec fn get_name() -> MethodV {
    pm("java/lang/reflect/Method"@, "getName"@, seq![], string_ty())
}

/// `Method.getReturnType()`.
pub open spec fn get_ret_ty() -> MethodV {
    pm("java/lang/reflect/Method"@, "getReturnType"@, seq![], class_ty())
}

/// `String.equals(Object)`.
pub open spec fn str_eq() -> MethodV {
    pm("java/lang/String"@, "equals"@, seq![object_ty()], TyV::Boolean)
}

/// `Class.descriptorString()`.
pub open spec fn descr_string() -> MethodV {
    pm("java/lang/Class"@, "descriptorString"@, seq![], string_ty())
}

/// A virtual call.
pub open spec fn vcall(m: MethodV, args: Seq<u16>) -> InsV {
    InsV::Invoke { kind: InvokeKind::Virtual, method: m, args }
}

/// Branch to `label` when the register `a` holds zero (false).
pub open spec fn if_eqz(a: u8, label: Seq<char>) -> InsV {
    InsV::If { test: IfTest::EqZ, a: a as u16, b: 0, label }
}

/// Registers of a tester method.
pub const REG_ARR: u8 = 0;
pub const REG_ARR_IDX: u8 = 1;
pub const REG_TST_VAL: u8 = 2;
pub const REG_DEF_TYPE: u8 = 3;
pub const REG_CMP_VAL: u8 = 4;
pub const REG_IF_RES: u8 = 8;
pub const REG_REF_METHOD: u8 = 9;

/// The label a tester jumps to when the reflection object is not the expected one.
pub open spec fn tester_no_label() -> Seq<char> {
    "label_no"@
}

/// Compares the descriptor of the class in `reg` with that of `ty`; on a mismatch, jumps to
/// the failure label. The descriptor of `reg` ends in `to`.
pub open spec fn check_class_descr(ty: TyV, reg: u8, to: u8) -> Seq<InsV> {
    seq![
        InsV::ConstClass { reg: REG_CMP_VAL, lit: ty },
        vcall(descr_string(), seq![REG_CMP_VAL as u16]),
        InsV::MoveResultObject { to: REG_CMP_VAL },
        vcall(descr_string(), seq![reg as u16]),
        InsV::MoveResultObject { to },
        vcall(str_eq(), seq![REG_CMP_VAL as u16, to as u16]),
        InsV::MoveResult { to: REG_IF_RES },
        if_eqz(REG_IF_RES, tester_no_label()),
    ]
}

/// The check of the parameter `i`, of type `p`.
pub open spec fn check_param(i: int, p: TyV) -> Seq<InsV> {
    seq![
        InsV::Const { reg: REG_ARR_IDX, lit: i as i32 },
        InsV::AGetObject { dest: REG_TST_VAL, arr: REG_ARR, idx: REG_ARR_IDX },
    ] + check_class_descr(p, REG_TST_VAL, REG_TST_VAL)
}

/// The checks of all the parameters `ps`, in order.
pub open spec fn check_params(ps: Seq<TyV>) -> Seq<InsV>
    decreases ps.len(),
{
    if ps.len() == 0 {
        seq![]
    } else {
        check_params(ps.drop_last()) + check_param(ps.len() - 1, ps.last())
    }
}

/// The body of the tester of `m`: the number and the descriptors of the parameter types, for a
/// method its name and the descriptor of its return type, and the descriptor of the declaring
/// class are compared with those of the reflection object in register 9; the tester returns
/// true when all match and false at the first mismatch.
pub open spec fn tester_code(m: MethodV, is_constructor: bool) -> Seq<InsV> {
    seq![
        vcall(get_params_ty(is_constructor), seq![REG_REF_METHOD as u16]),
        InsV::MoveResultObject { to: REG_ARR },
        InsV::ArrayLength { dest: REG_ARR_IDX, arr: REG_ARR },
        InsV::Const { reg: REG_TST_VAL, lit: m.params.len() as i32 },
        InsV::If { test: IfTest::Ne, a: REG_ARR_IDX as u16, b: REG_TST_VAL as u16, label: tester_no_label() },
    ] + check_params(m.params) + (if is_constructor {
        seq![]
    } else {
        seq![
            vcall(get_name(), seq![REG_REF_METHOD as u16]),
            InsV::MoveResultObject { to: REG_TST_VAL },
            InsV::ConstString { reg: REG_CMP_VAL, lit: m.name },
            vcall(str_eq(), seq![REG_TST_VAL as u16, REG_CMP_VAL as u16]),
            InsV::MoveResult { to: REG_IF_RES },
            if_eqz(REG_IF_RES, tester_no_label()),
            vcall(get_ret_ty(), seq![REG_REF_METHOD as u16]),
            InsV::MoveResultObject { to: REG_TST_VAL },
        ] + check_class_descr(m.ret, REG_TST_VAL, REG_TST_VAL)
    }) + seq![
        vcall(get_dec_cls(is_constructor), seq![REG_REF_METHOD as u16]),
        InsV::MoveResultObject { to: REG_DEF_TYPE },
    ] + check_class_descr(m.class_, REG_DEF_TYPE, REG_TST_VAL) + seq![
        InsV::Const { reg: REG_CMP_VAL, lit: 1 },
        InsV::Return { reg: REG_CMP_VAL as u16 },
        InsV::Label { name: tester_no_label() },
        InsV::Const { reg: REG_CMP_VAL, lit: 0 },
        InsV::Return { reg: REG_CMP_VAL as u16 },
    ]
}

fn string_type() -> (r: DexType)
    ensures
        r@ == string_ty(),
{
    DexType::class("java/lang/String", true)
}

fn class_type() -> (r: DexType)
    ensures
        r@ == class_ty(),
{
    DexType::class("java/lang/Class", true)
}

fn virtual_call(m: IdMethod, a: u8) -> (r: Instruction)
    ensures
        r@ == vcall(m@, seq![a as u16]),
{
    let args = vec![a as u16];
    assert(args@ =~= seq![a as u16]);
    Instruction::Invoke { kind: InvokeKind::Virtual, method: m, args }
}

fn virtual_call2(m: IdMethod, a: u8, b: u8) -> (r: Instruction)
    ensures
        r@ == vcall(m@, seq![a as u16, b as u16]),
{
    let args = vec![a as u16, b as u16];
    assert(args@ =~= seq![a as u16, b as u16]);
    Instruction::Invoke { kind: InvokeKind::Virtual, method: m, args }
}

fn descr_string_method() -> (r: IdMethod)
    ensures
        r@ == descr_string(),
{
    let r = crate::dex_types::platform_method("java/lang/Class", "descriptorString", Vec::new(), string_type());
    assert(r@.params =~= seq![]);
    r
}

fn str_eq_method() -> (r: IdMethod)
    ensures
        r@ == str_eq(),
{
    let r = crate::dex_types::platform_method("java/lang/String", "equals", vec![object_type()], DexType::Boolean);
    assert(r@.params =~= seq![object_ty()]);
    r
}

fn reflect_method(is_constructor: bool, name: &str, ret: DexType) -> (r: IdMethod)
    ensures
        r@ == pm(reflect_class(is_constructor), name@, seq![], ret@),
{
    let class = if is_constructor {
        "java/lang/reflect/Constructor"
    } else {
        "java/lang/reflect/Method"
    };
    proof {
        reveal_strlit("java/lang/reflect/Constructor");
        reveal_strlit("java/lang/reflect/Method");
    }
    let r = crate::dex_types::platform_method(class, name, Vec::new(), ret);
    assert(r@.params =~= seq![]);
    r
}

fn check_class_descr_exec(ty: &DexType, reg: u8, to: u8, no: &String, out: &mut Vec<Instruction>)
    requires
        no@ == tester_no_label(),
    ensures
        insns_view(final(out)@) == insns_view(old(out)@) + check_class_descr(ty@, reg, to),
{
    let ghost before = insns_view(out@);
    out.push(Instruction::ConstClass { reg: REG_CMP_VAL, lit: ty.duplicate() });
    out.push(virtual_call(descr_string_method(), REG_CMP_VAL));
    out.push(Instruction::MoveResultObject { to: REG_CMP_VAL });
    out.push(virtual_call(descr_string_method(), reg));
    out.push(Instruction::MoveResultObject { to });
    out.push(virtual_call2(str_eq_method(), REG_CMP_VAL, to));
    out.push(Instruction::MoveResult { to: REG_IF_RES });
    out.push(Instruction::If { test: IfTest::EqZ, a: REG_IF_RES as u16, b: 0, label: no.clone() });
    assert(insns_view(out@) =~= before + check_class_descr(ty@, reg, to));
}

/// Generates the tester of `method_to_test`: a static method of `tester_methods_class` named
/// `name` that takes the `Method` (or `Constructor`) object and returns whether it reflects
/// `method_to_test`, comparing descriptors rather than classes so that a type loaded by another
/// class loader still matches.
pub fn gen_tester_method(
    tester_methods_class: &DexType,
    method_to_test: &IdMethod,
    is_constructor: bool,
    name: String,
) -> (r: Method)
    requires
        method_to_test.params@.len() <= i32::MAX,
    ensures
        r.descriptor@ == (MethodV {
            class_: tester_methods_class@,
            name: name@,
            params: seq![TyV::Class { name: reflect_class(is_constructor), platform: true }],
            ret: TyV::Boolean,
        }),
        r.is_static,
        r.is_final,
        r.code matches Some(c) && c.registers_size == 10 && c.ins_size == 1 && insns_view(c.insns@)
            == tester_code(method_to_test@, is_constructor),
{
    let no = String::from_str("label_no");
    let mut insns: Vec<Instruction> = Vec::new();
    insns.push(virtual_call(reflect_method(is_constructor, "getParameterTypes", DexType::Array { elem: Box::new(class_type()) }), REG_REF_METHOD));
    insns.push(Instruction::MoveResultObject { to: REG_ARR });
    insns.push(Instruction::ArrayLength { dest: REG_ARR_IDX, arr: REG_ARR });
    insns.push(Instruction::Const { reg: REG_TST_VAL, lit: method_to_test.params.len() as i32 });
    insns.push(Instruction::If { test: IfTest::Ne, a: REG_ARR_IDX as u16, b: REG_TST_VAL as u16, label: no.clone() });
    let ghost head = insns_view(insns@);
    let ghost ps = method_to_test@.params;
    assert(head =~= seq![
        vcall(get_params_ty(is_constructor), seq![REG_REF_METHOD as u16]),
        InsV::MoveResultObject { to: REG_ARR },
        InsV::ArrayLength { dest: REG_ARR_IDX, arr: REG_ARR },
        InsV::Const { reg: REG_TST_VAL, lit: ps.len() as i32 },
        InsV::If { test: IfTest::Ne, a: REG_ARR_IDX as u16, b: REG_TST_VAL as u16, label: tester_no_label() },
    ]);
    let mut i: usize = 0;
    while i < method_to_test.params.len()
        invariant
            no@ == tester_no_label(),
            ps == method_to_test@.params,
            i <= ps.len(),
            ps.len() <= i32::MAX,
            insns_view(insns@) == head + check_params(ps.take(i as int)),
        decreases ps.len() - i,
    {
        let ghost before = insns_view(insns@);
        insns.push(Instruction::Const { reg: REG_ARR_IDX, lit: i as i32 });
        insns.push(Instruction::AGetObject { dest: REG_TST_VAL, arr: REG_ARR, idx: REG_ARR_IDX });
        check_class_descr_exec(&method_to_test.params[i], REG_TST_VAL, REG_TST_VAL, &no, &mut insns);
        proof {
            assert(ps.take(i as int + 1).drop_last() =~= ps.take(i as int));
            assert(ps.take(i as int + 1).last() == method_to_test.params@[i as int]@);
        }
        assert(insns_view(insns@) =~= before + check_param(i as int, ps[i as int]));
        i += 1;
    }
    assert(ps.take(i as int) =~= ps);
    let ghost mid = insns_view(insns@);
    if !is_constructor {
        insns.push(virtual_call(reflect_method(false, "getName", string_type()), REG_REF_METHOD));
        insns.push(Instruction::MoveResultObject { to: REG_TST_VAL });
        insns.push(Instruction::ConstString { reg: REG_CMP_VAL, lit: method_to_test.name.clone() });
        insns.push(virtual_call2(str_eq_method(), REG_TST_VAL, REG_CMP_VAL));
        insns.push(Instruction::MoveResult { to: REG_IF_RES });
        insns.push(Instruction::If { test: IfTest::EqZ, a: REG_IF_RES as u16, b: 0, label: no.clone() });
        insns.push(virtual_call(reflect_method(false, "getReturnType", class_type()), REG_REF_METHOD));
        insns.push(Instruction::MoveResultObject { to: REG_TST_VAL });
        check_class_descr_exec(&method_to_test.ret, REG_TST_VAL, REG_TST_VAL, &no, &mut insns);
    }
    let ghost mid2 = insns_view(insns@);
    insns.push(virtual_call(reflect_method(is_constructor, "getDeclaringClass", class_type()), REG_REF_METHOD));
    insns.push(Instruction::MoveResultObject { to: REG_DEF_TYPE });
    assert(insns_view(insns@) =~= mid2 + seq![
        vcall(get_dec_cls(is_constructor), seq![REG_REF_METHOD as u16]),
        InsV::MoveResultObject { to: REG_DEF_TYPE },
    ]);
    check_class_descr_exec(&method_to_test.class_, REG_DEF_TYPE, REG_TST_VAL, &no, &mut insns);
    let ghost mid3 = insns_view(insns@);
    insns.push(Instruction::Const { reg: REG_CMP_VAL, lit: 1 });
    insns.push(Instruction::Return { reg: REG_CMP_VAL as u16 });
    insns.push(Instruction::Label { name: no });
    insns.push(Instruction::Const { reg: REG_CMP_VAL, lit: 0 });
    insns.push(Instruction::Return { reg: REG_CMP_VAL as u16 });
    assert(insns_view(insns@) =~= mid3 + seq![
        InsV::Const { reg: REG_CMP_VAL, lit: 1 },
        InsV::Return { reg: REG_CMP_VAL as u16 },
        InsV::Label { name: tester_no_label() },
        InsV::Const { reg: REG_CMP_VAL, lit: 0 },
        InsV::Return { reg: REG_CMP_VAL as u16 },
    ]);
    proof {
        reveal_strlit("java/lang/reflect/Method");
        assert(mid2 =~= mid + (if is_constructor {
            seq![]
        } else {
            seq![
                vcall(get_name(), seq![REG_REF_METHOD as u16]),
                InsV::MoveResultObject { to: REG_TST_VAL },
                InsV::ConstString { reg: REG_CMP_VAL, lit: method_to_test@.name },
                vcall(str_eq(), seq![REG_TST_VAL as u16, REG_CMP_VAL as u16]),
                InsV::MoveResult { to: REG_IF_RES },
                if_eqz(REG_IF_RES, tester_no_label()),
                vcall(get_ret_ty(), seq![REG_REF_METHOD as u16]),
                InsV::MoveResultObject { to: REG_TST_VAL },
            ] + check_class_descr(method_to_test@.ret, REG_TST_VAL, REG_TST_VAL)
        }));
    }
    assert(insns_view(insns@) =~= tester_code(method_to_test@, is_constructor));
    let param = DexType::class(if is_constructor {
        "java/lang/reflect/Constructor"
    } else {
        "java/lang/reflect/Method"
    }, true);
    proof {
        reveal_strlit("java/lang/reflect/Constructor");
    }
    let descriptor = IdMethod {
        class_: tester_methods_class.duplicate(),
        name,
        params: vec![param],
        ret: DexType::Boolean,
    };
    assert(descriptor@.params =~= seq![TyV::Class { name: reflect_class(is_constructor), platform: true }]);
    Method {
        descriptor,
        is_static: true,
        is_final: true,
        code: Some(Code { registers_size: 10, ins_size: 1, insns }),
    }
}

/// Why a method or a call site could not be rewritten.
#[derive(Debug, PartialEq, Eq, Structural)]
pub enum PatchError {
    /// The method has no code.
    MissingCode,
    /// A reflective call with an unexpected number of arguments.
    WrongArgCount,
    /// `Class.newInstance()` can only call a constructor without parameters.
    NotZeroArgConstructor,
    /// A target whose parameters are neither references nor scalars.
    BadParameter,
    /// The synthesized registers do not fit the register numbers.
    RegisterOverflow,
}

/// A tester in the shared pool: the method it recognises, the class loader that defined that
/// method (empty for platform classes), and the tester itself.
#[derive(Debug)]
pub struct TesterEntry {
    pub target: IdMethod,
    pub classloader: String,
    pub method: Method,
}

/// Whether a pool entry is the tester of `m` as defined by the class loader `cl`.
pub open spec fn entry_is(e: TesterEntry, m: MethodV, cl: Seq<char>) -> bool {
    e.target@ == m && e.classloader@ == cl
}

/// At most one tester per method and class loader.
pub open spec fn pool_unique(pool: Seq<TesterEntry>) -> bool {
    forall|i: int, j: int|
        0 <= i < j < pool.len() ==> !entry_is(
            #[trigger] pool[i],
            pool[j].target@,
            #[trigger] pool[j].classloader@,
        )
}

/// The larger of two numbers.
pub open spec fn max_nat(a: nat, b: nat) -> nat {
    if a >= b {
        a
    } else {
        b
    }
}

/// The short name of a class type: its internal name after the last `/`.
pub open spec fn class_short_name(t: TyV) -> Seq<char> {
    match t {
        TyV::Class { name, .. } => crate::get_apk::last_component(name),
        _ => seq![],
    }
}

/// The pool `new` holds the testers of `old`, at the same positions, and possibly more.
pub open spec fn pool_extends(old: Seq<TesterEntry>, new: Seq<TesterEntry>) -> bool {
    new.len() >= old.len() && forall|i: int| 0 <= i < old.len() ==> #[trigger] new[i] == old[i]
}

/// Testers are named after their position in the pool rather than after a hash of the class
/// loader and the method: positions are unique in the pool, so the names cannot collide.
///
/// The name of the tester of `m` at position `i` of the pool:
/// `check_is_<class>_<method>_<i in hexadecimal>`, without the angle brackets of
/// constructor names. The position keeps the names of different testers apart.
pub open spec fn tester_name(m: MethodV, i: nat) -> Seq<char> {
    "check_is_"@ + class_short_name(m.class_) + "_"@ + crate::labels::strip_angles(m.name) + "_"@
        + hex_pad(i, 1)
}

/// The call of a tester on the reflection object in `reg`, and the branch to `abort` when it
/// returns false.
pub open spec fn guard(tester: MethodV, reg: u16, ri: RegistersInfo, abort: Seq<char>) -> Seq<InsV> {
    seq![
        InsV::Invoke { kind: InvokeKind::Static, method: tester, args: seq![reg] },
        InsV::MoveResult { to: ri.array_val },
        if_eqz(ri.array_val, abort),
    ]
}

/// The registers `a`, `a + 1`, ..., `a + n - 1`.
pub open spec fn reg_range(a: u16, n: nat) -> Seq<u16> {
    Seq::new(n, |i: int| (a + i) as u16)
}

fn reg_range_exec(a: u16, n: u16) -> (r: Vec<u16>)
    requires
        a + n <= u16::MAX,
    ensures
        r@ == reg_range(a, n as nat),
{
    let mut r: Vec<u16> = Vec::new();
    let mut i: u16 = 0;
    while i < n
        invariant
            i <= n,
            a + n <= u16::MAX,
            r@ =~= reg_range(a, i as nat),
        decreases n - i,
    {
        r.push(a + i);
        i += 1;
        assert(r@ =~= reg_range(a, i as nat));
    }
    r
}

/// The tester of `m` for the class loader `cl` in the pool, added when missing. Returns its
/// descriptor.
pub fn tester_for(
    pool: &mut Vec<TesterEntry>,
    tester_methods_class: &DexType,
    m: &IdMethod,
    cl: &String,
    is_constructor: bool,
) -> (r: IdMethod)
    requires
        pool_unique(old(pool)@),
        m.params@.len() <= i32::MAX,
    ensures
        pool_unique(final(pool)@),
        pool_extends(old(pool)@, final(pool)@),
        exists|i: int|
            0 <= i < final(pool)@.len() && entry_is(#[trigger] final(pool)@[i], m@, cl@) && r@
                == final(pool)@[i].method.descriptor@,
        (exists|i: int| 0 <= i < old(pool)@.len() && entry_is(#[trigger] old(pool)@[i], m@, cl@))
            ==> final(pool)@ == old(pool)@,
        !(exists|i: int| 0 <= i < old(pool)@.len() && entry_is(#[trigger] old(pool)@[i], m@, cl@))
            ==> {
            &&& final(pool)@.len() == old(pool)@.len() + 1
            &&& final(pool)@.take(old(pool)@.len() as int) == old(pool)@
            &&& final(pool)@.last().method.descriptor@.name == tester_name(m@, old(pool)@.len() as nat)
            &&& final(pool)@.last().method.code matches Some(c) && insns_view(c.insns@)
                == tester_code(m@, is_constructor)
        },
{
    let mut i: usize = 0;
    while i < pool.len()
        invariant
            i <= pool@.len(),
            pool@ == old(pool)@,
            pool_unique(old(pool)@),
            forall|j: int| 0 <= j < i ==> !entry_is(#[trigger] pool@[j], m@, cl@),
        decreases pool@.len() - i,
    {
        if pool[i].target.same(m) && pool[i].classloader.eq(cl) {
            return pool[i].method.descriptor.duplicate();
        }
        i += 1;
    }
    let mut name = String::from_str("check_is_");
    match &m.class_ {
        DexType::Class { name: c, .. } => crate::labels::push_last_component(c, &mut name),
        _ => {},
    }
    name.append("_");
    crate::labels::push_without_angles(&m.name, &mut name);
    name.append("_");
    crate::labels::push_hex_digits(pool.len(), 1, &mut name);
    proof {
        reveal_strlit("check_is_");
        reveal_strlit("_");
    }
    assert(name@ =~= tester_name(m@, pool@.len() as nat));
    let method = gen_tester_method(tester_methods_class, m, is_constructor, name);
    let r = method.descriptor.duplicate();
    let ghost old_pool = pool@;
    pool.push(TesterEntry { target: m.duplicate(), classloader: cl.clone(), method });
    proof {
        assert(pool@.take(old_pool.len() as int) =~= old_pool);
        assert(entry_is(pool@[old_pool.len() as int], m@, cl@));
        assert forall|a: int, b: int| 0 <= a < b < pool@.len() implies !entry_is(
            #[trigger] pool@[a],
            pool@[b].target@,
            #[trigger] pool@[b].classloader@,
        ) by {
            if b == old_pool.len() {
                assert(pool@[a] == old_pool[a]);
            } else {
                assert(pool@[a] == old_pool[a]);
                assert(pool@[b] == old_pool[b]);
            }
        }
    }
    r
}

/// The instructions that turn the result of the direct call into the `Object` the reflective
/// call would have left in `to`: references as they are, scalars boxed, nothing (null) for
/// `void`.
pub open spec fn rebox_result(ret: TyV, move_result: Option<u8>, ri: RegistersInfo) -> Seq<InsV> {
    match move_result {
        None => seq![],
        Some(to) => if ret.is_ref() {
            seq![InsV::MoveResultObject { to }]
        } else if ret is Void {
            seq![InsV::Const { reg: to, lit: 0 }]
        } else {
            seq![
                if ret.is_wide() {
                    InsV::MoveResultWide { to: ri.array_val }
                } else {
                    InsV::MoveResult { to: ri.array_val }
                },
                InsV::Invoke {
                    kind: InvokeKind::Static,
                    method: box_method(ret),
                    args: seq![ri.array_val as u16],
                },
                InsV::MoveResultObject { to },
                InsV::CheckCast { reg: to, lit: object_ty() },
            ]
        },
    }
}

/// The width of the argument window of a call to `m`, with `this` when not static.
pub open spec fn window(m: MethodV, is_static: bool) -> nat {
    params_width(m.params) + if is_static {
        0nat
    } else {
        1nat
    }
}

/// The block that replaces a `Method.invoke(method_obj, obj_inst, arg_arr)` for one recorded
/// target: the guard, the receiver cast to the declaring class, the arguments unpacked, the
/// direct call, the result boxed back, then a jump to `end_label`; `abort` follows, where a
/// failed guard lands.
pub open spec fn invoke_block(
    d: ReflectionInvokeData,
    method_obj: u16,
    obj_inst: u16,
    arg_arr: u16,
    ri: RegistersInfo,
    end_label: Seq<char>,
    abort: Seq<char>,
    move_result: Option<u8>,
    tester: MethodV,
) -> Seq<InsV> {
    let callee = static_target(d.method, d.renamed_method);
    guard(tester, method_obj, ri, abort) + (if d.is_static {
        seq![]
    } else {
        seq![
            InsV::MoveObject { from: obj_inst, to: ri.array_val as u16 },
            InsV::CheckCast { reg: ri.array_val, lit: callee.class_ },
            InsV::MoveObject { from: ri.array_val as u16, to: ri.first_arg },
        ]
    }) + args_from_array(
        callee.params,
        arg_arr,
        (ri.first_arg + if d.is_static {
            0int
        } else {
            1int
        }) as u16,
        ri,
    ) + seq![
        InsV::Invoke {
            kind: if d.is_static {
                InvokeKind::Static
            } else {
                InvokeKind::Virtual
            },
            method: callee,
            args: reg_range(ri.first_arg, window(callee, d.is_static)),
        },
    ] + rebox_result(callee.ret, move_result, ri) + seq![
        InsV::Goto { label: end_label },
        InsV::Label { name: abort },
    ]
}

/// The argument window grows to fit `w` registers.
pub open spec fn grown(ri: RegistersInfo, w: nat) -> RegistersInfo {
    RegistersInfo {
        nb_arg_reg: if (ri.nb_arg_reg as nat) < w {
            w as u16
        } else {
            ri.nb_arg_reg
        },
        ..ri
    }
}

/// The platform classes need no class loader to tell them apart.
pub open spec fn tester_loader(target: MethodV, cl: Seq<char>) -> Seq<char> {
    if target.class_ matches TyV::Class { platform: true, .. } {
        Seq::empty()
    } else {
        cl
    }
}

fn loader_key(target: &IdMethod, cl: &String) -> (r: String)
    ensures
        r@ == tester_loader(target@, cl@),
{
    match &target.class_ {
        DexType::Class { platform: true, .. } => String::new(),
        _ => cl.clone(),
    }
}

fn all_passable(ps: &Vec<DexType>) -> (r: bool)
    ensures
        r == passable(ps@.map_values(|t: DexType| t@)),
{
    let mut k: usize = 0;
    while k < ps.len()
        invariant
            k <= ps@.len(),
            forall|x: int| 0 <= x < k ==> (#[trigger] ps@[x]@).is_ref() || ps@[x]@.is_scalar(),
        decreases ps@.len() - k,
    {
        let p = &ps[k];
        if !p.is_ref() && !matches!(
            p,
            DexType::Boolean | DexType::Byte | DexType::Short | DexType::Char | DexType::Int
                | DexType::Long | DexType::Float | DexType::Double
        ) {
            assert(!(ps@.map_values(|t: DexType| t@)[k as int].is_ref() || ps@.map_values(
                |t: DexType| t@,
            )[k as int].is_scalar()));
            return false;
        }
        k += 1;
    }
    let ghost vs = ps@.map_values(|t: DexType| t@);
    assert forall|x: int| 0 <= x < vs.len() implies (#[trigger] vs[x]).is_ref() || vs[x].is_scalar() by {
        assert(vs[x] == ps@[x]@);
    }
    true
}

fn rebox_exec(ret: &DexType, move_result: Option<u8>, ri: &RegistersInfo, out: &mut Vec<Instruction>)
    ensures
        insns_view(final(out)@) == insns_view(old(out)@) + rebox_result(ret@, move_result, *ri),
{
    let ghost before = insns_view(out@);
    match move_result {
        None => {},
        Some(to) => {
            if ret.is_ref() {
                out.push(Instruction::MoveResultObject { to });
            } else if matches!(ret, DexType::Void) {
                out.push(Instruction::Const { reg: to, lit: 0 });
            } else {
                let boxing = match get_scalar_to_obj_method(ret) {
                    Ok(m) => m,
                    Err(_) => {
                        assert(false);
                        return ;
                    },
                };
                if ret.is_wide() {
                    out.push(Instruction::MoveResultWide { to: ri.array_val });
                } else {
                    out.push(Instruction::MoveResult { to: ri.array_val });
                }
                let bargs = vec![ri.array_val as u16];
                assert(bargs@ =~= seq![ri.array_val as u16]);
                out.push(Instruction::Invoke { kind: InvokeKind::Static, method: boxing, args: bargs });
                out.push(Instruction::MoveResultObject { to });
                out.push(Instruction::CheckCast { reg: to, lit: object_type() });
            }
        },
    }
    assert(insns_view(out@) =~= before + rebox_result(ret@, move_result, *ri));
}

/// The guarded direct call for one target of a `Method.invoke()` call site.
#[verifier::rlimit(50)]
pub fn get_invoke_block(
    ref_data: &ReflectionInvokeData,
    invoke_arg: &Vec<u16>,
    reg_inf: &mut RegistersInfo,
    end_label: &String,
    abort_label: &String,
    move_result: Option<u8>,
    tester_methods_class: &DexType,
    tester_methods: &mut Vec<TesterEntry>,
    limit: u16,
) -> (r: Result<Vec<Instruction>, PatchError>)
    requires
        pool_unique(old(tester_methods)@),
        abort_label@ != end_label@,
    ensures
        pool_unique(final(tester_methods)@),
        ({
            let callee = static_target(ref_data.method, ref_data.renamed_method);
            &&& r is Ok <==> (invoke_arg@.len() == 3 && passable(callee.params)
                && ref_data.method.params@.len() <= i32::MAX && callee.params.len() <= u16::MAX
                && old(reg_inf).first_arg + window(callee, ref_data.is_static) < limit)
            &&& r is Ok ==> *final(reg_inf) == grown(*old(reg_inf), window(callee, ref_data.is_static))
            &&& r matches Ok(b) ==> exists|t: int|
                0 <= t < final(tester_methods)@.len() && entry_is(
                    #[trigger] final(tester_methods)@[t],
                    ref_data.method@,
                    tester_loader(ref_data.method@, ref_data.method_cl_id@),
                ) && insns_view(b@) == invoke_block(
                    *ref_data,
                    invoke_arg@[0],
                    invoke_arg@[1],
                    invoke_arg@[2],
                    *final(reg_inf),
                    end_label@,
                    abort_label@,
                    move_result,
                    final(tester_methods)@[t].method.descriptor@,
                )
        }),
        r is Err ==> *final(reg_inf) == *old(reg_inf) && final(tester_methods)@ == old(tester_methods)@,
        pool_extends(old(tester_methods)@, final(tester_methods)@),
        final(reg_inf).first_arg == old(reg_inf).first_arg && final(reg_inf).array_val == old(
            reg_inf,
        ).array_val && final(reg_inf).array_index == old(reg_inf).array_index && final(reg_inf).array
            == old(reg_inf).array,
{
    if invoke_arg.len() != 3 {
        return Err(PatchError::WrongArgCount);
    }
    let method_obj = invoke_arg[0];
    let obj_inst = invoke_arg[1];
    let arg_arr = invoke_arg[2];
    let callee = ref_data.get_static_callee();
    if ref_data.method.params.len() > i32::MAX as usize || callee.params.len() > u16::MAX as usize {
        return Err(PatchError::BadParameter);
    }
    if !all_passable(&callee.params) {
        return Err(PatchError::BadParameter);
    }
    let nb_args = callee.params_width();
    proof {
        crate::dex_types::lemma_params_width_bound(callee@.params);
    }
    let this_reg: u16 = if ref_data.is_static {
        0
    } else {
        1
    };
    if reg_inf.first_arg as usize + nb_args + this_reg as usize >= limit as usize {
        return Err(PatchError::RegisterOverflow);
    }
    let win = nb_args as u16 + this_reg;
    if reg_inf.nb_arg_reg < win {
        reg_inf.nb_arg_reg = win;
    }
    let key = loader_key(&ref_data.method, &ref_data.method_cl_id);
    let tester = tester_for(tester_methods, tester_methods_class, &ref_data.method, &key, false);
    let ghost tv = tester@;
    let args = vec![method_obj];
    assert(args@ =~= seq![method_obj]);
    let mut insns = vec![
        Instruction::Invoke { kind: InvokeKind::Static, method: tester, args },
        Instruction::MoveResult { to: reg_inf.array_val },
        Instruction::If { test: IfTest::EqZ, a: reg_inf.array_val as u16, b: 0, label: abort_label.clone() },
    ];
    assert(insns_view(insns@) =~= guard(tv, method_obj, *reg_inf, abort_label@));
    let ghost g = insns_view(insns@);
    if !ref_data.is_static {
        insns.push(Instruction::MoveObject { from: obj_inst, to: reg_inf.array_val as u16 });
        insns.push(Instruction::CheckCast { reg: reg_inf.array_val, lit: callee.class_.duplicate() });
        insns.push(Instruction::MoveObject { from: reg_inf.array_val as u16, to: reg_inf.first_arg });
    }
    let ghost g2 = insns_view(insns@);
    assert(g2 =~= g + (if ref_data.is_static {
        seq![]
    } else {
        seq![
            InsV::MoveObject { from: obj_inst, to: reg_inf.array_val as u16 },
            InsV::CheckCast { reg: reg_inf.array_val, lit: callee@.class_ },
            InsV::MoveObject { from: reg_inf.array_val as u16, to: reg_inf.first_arg },
        ]
    }));
    let mut unpack = get_args_from_obj_arr(&callee.params, arg_arr, reg_inf.first_arg + this_reg, reg_inf);
    insns.append(&mut unpack);
    let ghost g3 = insns_view(insns@);
    let kind = if ref_data.is_static {
        InvokeKind::Static
    } else {
        InvokeKind::Virtual
    };
    let window_regs = reg_range_exec(reg_inf.first_arg, win);
    let ret = callee.ret.duplicate();
    insns.push(Instruction::Invoke { kind, method: callee, args: window_regs });
    let ghost g4 = insns_view(insns@);
    assert(g4 =~= g3 + seq![
        InsV::Invoke {
            kind: if ref_data.is_static {
                InvokeKind::Static
            } else {
                InvokeKind::Virtual
            },
            method: static_target(ref_data.method, ref_data.renamed_method),
            args: reg_range(reg_inf.first_arg, window(static_target(ref_data.method, ref_data.renamed_method), ref_data.is_static)),
        },
    ]);
    rebox_exec(&ret, move_result, reg_inf, &mut insns);
    let ghost g5 = insns_view(insns@);
    insns.push(Instruction::Goto { label: end_label.clone() });
    insns.push(Instruction::Label { name: abort_label.clone() });
    assert(insns_view(insns@) =~= g5 + seq![
        InsV::Goto { label: end_label@ },
        InsV::Label { name: abort_label@ },
    ]);
    proof {
        assert(insns_view(insns@) =~= invoke_block(
            *ref_data,
            method_obj,
            obj_inst,
            arg_arr,
            *reg_inf,
            end_label@,
            abort_label@,
            move_result,
            tv,
        ));
    }
    Ok(insns)
}

/// The block that replaces a `Constructor.newInstance(cnst, arg_arr)` for one recorded
/// constructor: the guard, the arguments unpacked after the slot of the new object, the
/// allocation, the direct constructor call, the object moved to the result register, then a
/// jump to `end_label`; `abort` follows.
pub open spec fn cnstr_block(
    d: ReflectionCnstrNewInstData,
    cnst_reg: u16,
    arg_arr: u16,
    ri: RegistersInfo,
    end_label: Seq<char>,
    abort: Seq<char>,
    move_result: Option<u8>,
    tester: MethodV,
) -> Seq<InsV> {
    let sc = static_target(d.constructor, d.renamed_constructor);
    guard(tester, cnst_reg, ri, abort) + args_from_array(
        d.constructor@.params,
        arg_arr,
        (ri.first_arg + 1) as u16,
        ri,
    ) + (if ri.first_arg < 255 {
        seq![InsV::NewInstance { reg: ri.first_arg as u8, lit: sc.class_ }]
    } else {
        seq![
            InsV::NewInstance { reg: ri.array_val, lit: sc.class_ },
            InsV::MoveObject { from: ri.array_val as u16, to: ri.first_arg },
        ]
    }) + seq![
        InsV::Invoke {
            kind: InvokeKind::Direct,
            method: sc,
            args: reg_range(ri.first_arg, params_width(d.constructor@.params) + 1),
        },
    ] + (match move_result {
        Some(to) => seq![InsV::MoveObject { from: ri.first_arg, to: to as u16 }],
        None => seq![],
    }) + seq![InsV::Goto { label: end_label }, InsV::Label { name: abort }]
}

/// The guarded direct instantiation for one constructor of a `Constructor.newInstance()` call
/// site.
#[verifier::rlimit(50)]
pub fn get_cnstr_new_inst_block(
    ref_data: &ReflectionCnstrNewInstData,
    invoke_arg: &Vec<u16>,
    reg_inf: &mut RegistersInfo,
    end_label: &String,
    abort_label: &String,
    move_result: Option<u8>,
    tester_methods_class: &DexType,
    tester_methods: &mut Vec<TesterEntry>,
    limit: u16,
) -> (r: Result<Vec<Instruction>, PatchError>)
    requires
        pool_unique(old(tester_methods)@),
        abort_label@ != end_label@,
    ensures
        pool_unique(final(tester_methods)@),
        ({
            let ps = ref_data.constructor@.params;
            &&& r is Ok <==> (invoke_arg@.len() == 2 && passable(ps) && ps.len() <= u16::MAX
                && old(reg_inf).first_arg + params_width(ps) + 1 < limit)
            &&& r is Ok ==> *final(reg_inf) == grown(*old(reg_inf), params_width(ps) + 1)
            &&& r matches Ok(b) ==> exists|t: int|
                0 <= t < final(tester_methods)@.len() && entry_is(
                    #[trigger] final(tester_methods)@[t],
                    ref_data.constructor@,
                    tester_loader(ref_data.constructor@, ref_data.constructor_cl_id@),
                ) && insns_view(b@) == cnstr_block(
                    *ref_data,
                    invoke_arg@[0],
                    invoke_arg@[1],
                    *final(reg_inf),
                    end_label@,
                    abort_label@,
                    move_result,
                    final(tester_methods)@[t].method.descriptor@,
                )
        }),
        r is Err ==> *final(reg_inf) == *old(reg_inf) && final(tester_methods)@ == old(tester_methods)@,
        pool_extends(old(tester_methods)@, final(tester_methods)@),
        same_scratch(*final(reg_inf), *old(reg_inf)),
{
    if invoke_arg.len() != 2 {
        return Err(PatchError::WrongArgCount);
    }
    let cnst_reg = invoke_arg[0];
    let arg_arr = invoke_arg[1];
    let params = &ref_data.constructor.params;
    if params.len() > u16::MAX as usize || !all_passable(params) {
        return Err(PatchError::BadParameter);
    }
    let nb_args = ref_data.constructor.params_width();
    proof {
        crate::dex_types::lemma_params_width_bound(ref_data.constructor@.params);
    }
    if reg_inf.first_arg as usize + nb_args + 1 >= limit as usize {
        return Err(PatchError::RegisterOverflow);
    }
    let win = nb_args as u16 + 1;
    if reg_inf.nb_arg_reg < win {
        reg_inf.nb_arg_reg = win;
    }
    let key = loader_key(&ref_data.constructor, &ref_data.constructor_cl_id);
    let tester = tester_for(tester_methods, tester_methods_class, &ref_data.constructor, &key, true);
    let ghost tv = tester@;
    let args = vec![cnst_reg];
    assert(args@ =~= seq![cnst_reg]);
    let mut insns = vec![
        Instruction::Invoke { kind: InvokeKind::Static, method: tester, args },
        Instruction::MoveResult { to: reg_inf.array_val },
        Instruction::If { test: IfTest::EqZ, a: reg_inf.array_val as u16, b: 0, label: abort_label.clone() },
    ];
    assert(insns_view(insns@) =~= guard(tv, cnst_reg, *reg_inf, abort_label@));
    let ghost g = insns_view(insns@);
    let mut unpack = get_args_from_obj_arr(params, arg_arr, reg_inf.first_arg + 1, reg_inf);
    insns.append(&mut unpack);
    let ghost g2 = insns_view(insns@);
    let sc = ref_data.get_static_constructor();
    if reg_inf.first_arg < 255 {
        insns.push(Instruction::NewInstance { reg: reg_inf.first_arg as u8, lit: sc.class_.duplicate() });
    } else {
        insns.push(Instruction::NewInstance { reg: reg_inf.array_val, lit: sc.class_.duplicate() });
        insns.push(Instruction::MoveObject { from: reg_inf.array_val as u16, to: reg_inf.first_arg });
    }
    let ghost g3 = insns_view(insns@);
    let window_regs = reg_range_exec(reg_inf.first_arg, win);
    let ghost scv = sc@;
    insns.push(Instruction::Invoke { kind: InvokeKind::Direct, method: sc, args: window_regs });
    let ghost g4 = insns_view(insns@);
    match move_result {
        Some(to) => insns.push(Instruction::MoveObject { from: reg_inf.first_arg, to: to as u16 }),
        None => {},
    }
    let ghost g5 = insns_view(insns@);
    insns.push(Instruction::Goto { label: end_label.clone() });
    insns.push(Instruction::Label { name: abort_label.clone() });
    proof {
        assert(g4 =~= g3 + seq![
            InsV::Invoke {
                kind: InvokeKind::Direct,
                method: scv,
                args: reg_range(reg_inf.first_arg, params_width(ref_data.constructor@.params) + 1),
            },
        ]);
        assert(g5 =~= g4 + (match move_result {
            Some(to) => seq![InsV::MoveObject { from: reg_inf.first_arg, to: to as u16 }],
            None => seq![],
        }));
        assert(insns_view(insns@) =~= g5 + seq![
            InsV::Goto { label: end_label@ },
            InsV::Label { name: abort_label@ },
        ]);
        assert(insns_view(insns@) =~= cnstr_block(
            *ref_data,
            cnst_reg,
            arg_arr,
            *reg_inf,
            end_label@,
            abort_label@,
            move_result,
            tv,
        ));
    }
    Ok(insns)
}

/// The block that replaces a `Class.newInstance()` on the class in `class_reg` for one
/// recorded constructor: the descriptor of the class is compared with that of the
/// constructor's class, both held in scratch registers so that the class register still holds
/// the class when the guard fails and the original call runs; then the object is allocated and its constructor called directly in
/// the result register (or a scratch one), then a jump to `end_label`; `abort` follows.
pub open spec fn class_new_inst_block(
    d: ReflectionClassNewInstData,
    class_reg: u8,
    ri: RegistersInfo,
    end_label: Seq<char>,
    abort: Seq<char>,
    move_result: Option<u8>,
) -> Seq<InsV> {
    let sc = static_target(d.constructor, d.renamed_constructor);
    let ai = ri.array_index;
    let obj = match move_result {
        Some(to) => to,
        None => ai,
    };
    seq![
        InsV::ConstClass { reg: ai, lit: d.constructor@.class_ },
        vcall(descr_string(), seq![ai as u16]),
        InsV::MoveResultObject { to: ai },
        vcall(descr_string(), seq![class_reg as u16]),
        InsV::MoveResultObject { to: ri.array_val },
        vcall(str_eq(), seq![ai as u16, ri.array_val as u16]),
        InsV::MoveResult { to: ai },
        if_eqz(ai, abort),
        InsV::NewInstance { reg: obj, lit: sc.class_ },
        InsV::Invoke { kind: InvokeKind::Direct, method: sc, args: seq![obj as u16] },
        InsV::Goto { label: end_label },
        InsV::Label { name: abort },
    ]
}

/// The guarded direct instantiation for one constructor of a `Class.newInstance()` call site.
pub fn get_class_new_inst_block(
    ref_data: &ReflectionClassNewInstData,
    invoke_arg: &Vec<u16>,
    reg_inf: &RegistersInfo,
    end_label: &String,
    abort_label: &String,
    move_result: Option<u8>,
) -> (r: Result<Vec<Instruction>, PatchError>)
    requires
        abort_label@ != end_label@,
    ensures
        r is Ok <==> (invoke_arg@.len() == 1 && ref_data.constructor@.params.len() == 0
            && invoke_arg@[0] <= 255),
        invoke_arg@.len() == 1 && ref_data.constructor@.params.len() != 0 ==> r == Err::<
            Vec<Instruction>,
            PatchError,
        >(PatchError::NotZeroArgConstructor),
        r matches Ok(b) ==> insns_view(b@) == class_new_inst_block(
            *ref_data,
            invoke_arg@[0] as u8,
            *reg_inf,
            end_label@,
            abort_label@,
            move_result,
        ),
{
    if invoke_arg.len() != 1 {
        return Err(PatchError::WrongArgCount);
    }
    if ref_data.constructor.params.len() != 0 {
        return Err(PatchError::NotZeroArgConstructor);
    }
    if invoke_arg[0] > 255 {
        return Err(PatchError::RegisterOverflow);
    }
    let class_reg = invoke_arg[0] as u8;
    let ai = reg_inf.array_index;
    let obj = match move_result {
        Some(to) => to,
        None => ai,
    };
    let sc = ref_data.get_static_constructor();
    let ghost scv = sc@;
    let new_class = sc.class_.duplicate();
    let oargs = vec![obj as u16];
    assert(oargs@ =~= seq![obj as u16]);
    let insns = vec![
        Instruction::ConstClass { reg: ai, lit: ref_data.constructor.class_.duplicate() },
        virtual_call(descr_string_method(), ai),
        Instruction::MoveResultObject { to: ai },
        virtual_call(descr_string_method(), class_reg),
        Instruction::MoveResultObject { to: reg_inf.array_val },
        virtual_call2(str_eq_method(), ai, reg_inf.array_val),
        Instruction::MoveResult { to: ai },
        Instruction::If { test: IfTest::EqZ, a: ai as u16, b: 0, label: abort_label.clone() },
        Instruction::NewInstance { reg: obj, lit: new_class },
        Instruction::Invoke { kind: InvokeKind::Direct, method: sc, args: oargs },
        Instruction::Goto { label: end_label.clone() },
        Instruction::Label { name: abort_label.clone() },
    ];
    assert(insns_view(insns@) =~= class_new_inst_block(
        *ref_data,
        class_reg,
        *reg_inf,
        end_label@,
        abort_label@,
        move_result,
    ));
    Ok(insns)
}

/// The kind of a reflective call.
#[derive(Debug, Clone, Copy, PartialEq, Eq, Structural)]
pub enum ReflectionKind {
    MethodInvoke,
    ClassNewInstance,
    ConstructorNewInstance,
}

/// Which of the intercepted reflective calls an instruction is, if any.
pub open spec fn reflection_kind(ins: InsV) -> Option<ReflectionKind> {
    match ins {
        InsV::Invoke { kind: InvokeKind::Virtual, method, .. } => if method == mth_invoke() {
            Some(ReflectionKind::MethodInvoke)
        } else if method == class_new_inst() {
            Some(ReflectionKind::ClassNewInstance)
        } else if method == cnstr_new_inst() {
            Some(ReflectionKind::ConstructorNewInstance)
        } else {
            None
        },
        _ => None,
    }
}

pub fn reflection_kind_of(ins: &Instruction) -> (r: Option<ReflectionKind>)
    ensures
        r == reflection_kind(ins@),
{
    match ins {
        Instruction::Invoke { kind: InvokeKind::Virtual, method, .. } => {
            if method.same(&crate::dex_types::method_invoke()) {
                Some(ReflectionKind::MethodInvoke)
            } else if method.same(&crate::dex_types::class_new_instance()) {
                Some(ReflectionKind::ClassNewInstance)
            } else if method.same(&crate::dex_types::constructor_new_instance()) {
                Some(ReflectionKind::ConstructorNewInstance)
            } else {
                None
            }
        },
        _ => None,
    }
}

/// Whether the trace recorded a target for the call site `label` of `m`, for calls of `kind`.
pub open spec fn site_recorded(rd: RuntimeData, m: MethodV, label: Seq<char>, kind: ReflectionKind) -> bool {
    match kind {
        ReflectionKind::MethodInvoke => exists|k: int|
            0 <= k < rd.invoke_data@.len() && invoke_at(#[trigger] rd.invoke_data@[k], m, label),
        ReflectionKind::ClassNewInstance => exists|k: int|
            0 <= k < rd.class_new_inst_data@.len() && class_new_inst_at(
                #[trigger] rd.class_new_inst_data@[k],
                m,
                label,
            ),
        ReflectionKind::ConstructorNewInstance => exists|k: int|
            0 <= k < rd.cnstr_new_inst_data@.len() && cnstr_new_inst_at(
                #[trigger] rd.cnstr_new_inst_data@[k],
                m,
                label,
            ),
    }
}

/// The trace recorded no target for any labelled call site of the method `m`.
pub open spec fn no_site_recorded(rd: RuntimeData, m: MethodV, insns: Seq<Instruction>) -> bool {
    forall|j: int, kind: ReflectionKind|
        0 <= j < insns.len() && insns[j] is Label ==> !#[trigger] site_recorded(
            rd,
            m,
            insns[j]->Label_name@,
            kind,
        )
}

/// The moves that copy the parameters from the window where the caller now puts them,
/// `added` registers higher, down to the registers the original code reads: `this` and
/// references with an object move, `long` and `double` with a wide move, other scalars with
/// a scalar move. `i` is the offset of the next parameter in the window.
pub open spec fn param_moves(is_static: bool, ps: Seq<TyV>, base: int, added: int) -> Seq<InsV> {
    (if is_static {
        seq![]
    } else {
        seq![InsV::MoveObject { from: (base + added) as u16, to: base as u16 }]
    }) + param_moves_from(ps, base + if is_static {
        0int
    } else {
        1int
    }, added)
}

pub open spec fn param_moves_from(ps: Seq<TyV>, base: int, added: int) -> Seq<InsV>
    decreases ps.len(),
{
    if ps.len() == 0 {
        seq![]
    } else {
        let at = base + params_width(ps.drop_last());
        param_moves_from(ps.drop_last(), base, added) + seq![
            if ps.last().is_ref() {
                InsV::MoveObject { from: (at + added) as u16, to: at as u16 }
            } else if ps.last().is_wide() {
                InsV::MoveWide { from: (at + added) as u16, to: at as u16 }
            } else {
                InsV::Move { from: (at + added) as u16, to: at as u16 }
            },
        ]
    }
}

fn param_moves_exec(is_static: bool, params: &Vec<DexType>, base: u16, added: u16) -> (r: Option<
    Vec<Instruction>,
>)
    requires
        params@.len() <= u16::MAX,
    ensures
        r matches Some(v) ==> insns_view(v@) == param_moves(
            is_static,
            params@.map_values(|t: DexType| t@),
            base as int,
            added as int,
        ),
        r is None ==> base + added + 1 + 2 * params@.len() > u16::MAX,
{
    let ghost ps = params@.map_values(|t: DexType| t@);
    proof {
        crate::dex_types::lemma_params_width_bound(ps);
    }
    if base as usize + added as usize + 1 + 2 * params.len() > u16::MAX as usize {
        return None;
    }
    let mut out: Vec<Instruction> = Vec::new();
    let mut at: u16 = base;
    if !is_static {
        out.push(Instruction::MoveObject { from: base + added, to: base });
        at = base + 1;
    }
    let ghost head = insns_view(out@);
    let ghost start = at;
    let mut i: usize = 0;
    while i < params.len()
        invariant
            ps == params@.map_values(|t: DexType| t@),
            i <= ps.len(),
            base as int + added as int + 1 + 2 * ps.len() <= u16::MAX,
            start as int == base as int + (if is_static { 0int } else { 1int }),
            at as int == start as int + params_width(ps.take(i as int)),
            params_width(ps.take(i as int)) <= 2 * i,
            insns_view(out@) == head + param_moves_from(ps.take(i as int), start as int, added as int),
        decreases ps.len() - i,
    {
        proof {
            assert(ps.take(i as int + 1).drop_last() =~= ps.take(i as int));
            assert(ps.take(i as int + 1).last() == params@[i as int]@);
        }
        let ghost before = insns_view(out@);
        let ghost at0 = at as int;
        let ins = if params[i].is_ref() {
            Instruction::MoveObject { from: at + added, to: at }
        } else if params[i].is_wide() {
            Instruction::MoveWide { from: at + added, to: at }
        } else {
            Instruction::Move { from: at + added, to: at }
        };
        let ghost iv = ins@;
        out.push(ins);
        if params[i].is_wide() {
            at = at + 2;
        } else {
            at = at + 1;
        }
        proof {
            let pt = ps.take(i as int + 1);
            assert(at0 == start as int + params_width(pt.drop_last()));
            assert(iv == (if pt.last().is_ref() {
                InsV::MoveObject { from: (at0 + added) as u16, to: at0 as u16 }
            } else if pt.last().is_wide() {
                InsV::MoveWide { from: (at0 + added) as u16, to: at0 as u16 }
            } else {
                InsV::Move { from: (at0 + added) as u16, to: at0 as u16 }
            }));
            assert(param_moves_from(pt, start as int, added as int) == param_moves_from(
                pt.drop_last(),
                start as int,
                added as int,
            ) + seq![iv]);
            assert(insns_view(out@) =~= before + seq![iv]);
        }
        i += 1;
        assert(insns_view(out@) =~= head + param_moves_from(ps.take(i as int), start as int, added as int));
    }
    assert(ps.take(i as int) =~= ps);
    assert(insns_view(out@) =~= param_moves(is_static, ps, base as int, added as int));
    Some(out)
}

/// The `move-result-object` found from `j` on, past pseudo-instructions only, with its
/// position and register.
pub open spec fn move_result_after(insns: Seq<Instruction>, j: int) -> Option<(int, u8)>
    decreases insns.len() - j,
{
    if j < 0 || j >= insns.len() {
        None
    } else if insns[j].spec_is_pseudo() {
        move_result_after(insns, j + 1)
    } else {
        match insns[j] {
            Instruction::MoveResultObject { to } => Some((j, to)),
            _ => None,
        }
    }
}

/// The `move-result-object` that takes the result of the call just before `from`, with only
/// pseudo-instructions between them.
fn get_move_result(insns: &Vec<Instruction>, from: usize) -> (r: Option<(usize, u8)>)
    ensures
        match r {
            Some((j, to)) => move_result_after(insns@, from as int) == Some((j as int, to)),
            None => move_result_after(insns@, from as int) is None,
        },
        r matches Some((j, to)) ==> from <= j < insns@.len() && insns@[j as int]@
            == (InsV::MoveResultObject { to }) && forall|k: int|
            from <= k < j ==> (#[trigger] insns@[k]).spec_is_pseudo(),
{
    let mut j: usize = from;
    while j < insns.len()
        invariant
            from <= j,
            forall|k: int| from <= k < j ==> (#[trigger] insns@[k]).spec_is_pseudo(),
            move_result_after(insns@, from as int) == move_result_after(insns@, j as int),
        decreases insns@.len() - j,
    {
        let ins = &insns[j];
        if ins.is_pseudo() {
            j += 1;
        } else {
            return match ins {
                Instruction::MoveResultObject { to } => Some((j, *to)),
                _ => None,
            };
        }
    }
    None
}

fn recorded(rd: &RuntimeData, m: &IdMethod, label: &String, kind: ReflectionKind) -> (r: bool)
    ensures
        r == site_recorded(*rd, m@, label@, kind),
{
    match kind {
        ReflectionKind::MethodInvoke => {
            let mut k: usize = 0;
            while k < rd.invoke_data.len()
                invariant
                    k <= rd.invoke_data@.len(),
                    kind == ReflectionKind::MethodInvoke,
                    forall|x: int| 0 <= x < k ==> !invoke_at(#[trigger] rd.invoke_data@[x], m@, label@),
                decreases rd.invoke_data@.len() - k,
            {
                let d = &rd.invoke_data[k];
                if d.caller_method.same(m) && crate::labels::addr_label(d.addr).eq(label) {
                    assert(invoke_at(rd.invoke_data@[k as int], m@, label@));
                    return true;
                }
                k += 1;
            }
            false
        },
        ReflectionKind::ClassNewInstance => {
            let mut k: usize = 0;
            while k < rd.class_new_inst_data.len()
                invariant
                    k <= rd.class_new_inst_data@.len(),
                    kind == ReflectionKind::ClassNewInstance,
                    forall|x: int|
                        0 <= x < k ==> !class_new_inst_at(#[trigger] rd.class_new_inst_data@[x], m@, label@),
                decreases rd.class_new_inst_data@.len() - k,
            {
                let d = &rd.class_new_inst_data[k];
                if d.caller_method.same(m) && crate::labels::addr_label(d.addr).eq(label) {
                    assert(class_new_inst_at(rd.class_new_inst_data@[k as int], m@, label@));
                    return true;
                }
                k += 1;
            }
            false
        },
        ReflectionKind::ConstructorNewInstance => {
            let mut k: usize = 0;
            while k < rd.cnstr_new_inst_data.len()
                invariant
                    k <= rd.cnstr_new_inst_data@.len(),
                    kind == ReflectionKind::ConstructorNewInstance,
                    forall|x: int|
                        0 <= x < k ==> !cnstr_new_inst_at(#[trigger] rd.cnstr_new_inst_data@[x], m@, label@),
                decreases rd.cnstr_new_inst_data@.len() - k,
            {
                let d = &rd.cnstr_new_inst_data[k];
                if d.caller_method.same(m) && crate::labels::addr_label(d.addr).eq(label) {
                    assert(cnstr_new_inst_at(rd.cnstr_new_inst_data@[k as int], m@, label@));
                    return true;
                }
                k += 1;
            }
            false
        },
    }
}

/// The register types recorded for the program point `label`: the first entry for it.
pub open spec fn lookup_types(rt: Seq<(String, Vec<RegType>)>, label: Seq<char>) -> Option<Seq<RegType>>
    decreases rt.len(),
{
    if rt.len() == 0 {
        None
    } else if lookup_types(rt.drop_last(), label) is Some {
        lookup_types(rt.drop_last(), label)
    } else if rt.last().0@ == label {
        Some(rt.last().1@)
    } else {
        None
    }
}

/// The register types at `label`, none when nothing was recorded for it.
pub open spec fn types_for(rt: Seq<(String, Vec<RegType>)>, label: Seq<char>) -> Seq<RegType> {
    match lookup_types(rt, label) {
        Some(t) => t,
        None => seq![],
    }
}

proof fn lemma_lookup_types_stable(rt: Seq<(String, Vec<RegType>)>, label: Seq<char>, m: int)
    requires
        0 <= m <= rt.len(),
        lookup_types(rt.take(m), label) is Some,
    ensures
        lookup_types(rt, label) == lookup_types(rt.take(m), label),
    decreases rt.len() - m,
{
    if m < rt.len() {
        assert(rt.take(m + 1).drop_last() =~= rt.take(m));
        lemma_lookup_types_stable(rt, label, m + 1);
    } else {
        assert(rt.take(m) =~= rt);
    }
}

/// The register types recorded for the program point `label`.
fn types_at<'a>(regs_types: &'a Vec<(String, Vec<RegType>)>, label: &String) -> (r: Option<
    &'a Vec<RegType>,
>)
    ensures
        match r {
            Some(t) => lookup_types(regs_types@, label@) == Some(t@),
            None => lookup_types(regs_types@, label@) is None,
        },
{
    let mut k: usize = 0;
    while k < regs_types.len()
        invariant
            k <= regs_types@.len(),
            lookup_types(regs_types@.take(k as int), label@) is None,
        decreases regs_types@.len() - k,
    {
        assert(regs_types@.take(k as int + 1).drop_last() =~= regs_types@.take(k as int));
        if regs_types[k].0.eq(label) {
            proof {
                lemma_lookup_types_stable(regs_types@, label@, k as int + 1);
            }
            return Some(&regs_types[k].1);
        }
        k += 1;
    }
    assert(regs_types@.take(k as int) =~= regs_types@);
    None
}

/// The invariant of the scratch registers during a method rewrite.
pub open spec fn regs_ok(ri: RegistersInfo, limit: u16) -> bool {
    &&& ri.first_arg + ri.nb_arg_reg < limit
    &&& ri.array_val_save matches Some(s) ==> s < u16::MAX
}

/// The label the blocks of the call site `label` jump to when a direct call is done.
/// The label that ends the rewritten call site `label`.
pub open spec fn end_label_of(kind: ReflectionKind, label: Seq<char>) -> Seq<char> {
    match kind {
        ReflectionKind::MethodInvoke => "end_reflection_call_at_"@ + label,
        _ => "end_reflection_instanciation_at_"@ + label,
    }
}

fn end_label_for(kind: ReflectionKind, label: &String) -> (r: String)
    ensures
        r@ == end_label_of(kind, label@),
        r@.len() > 0,
{
    proof {
        reveal_strlit("end_reflection_call_at_");
        reveal_strlit("end_reflection_instanciation_at_");
    }
    let mut s = match kind {
        ReflectionKind::MethodInvoke => String::from_str("end_reflection_call_at_"),
        _ => String::from_str("end_reflection_instanciation_at_"),
    };
    s.append(label.as_str());
    s
}

/// The register sizes a rewrite can handle: the parameters lie in the register file, and the
/// four scratch registers and the parameter moves fit the 16-bit register numbers.
pub open spec fn rewritable(registers_size: u16, ins_size: u16, nb_params: nat) -> bool {
    &&& ins_size <= registers_size
    &&& nb_params <= u16::MAX
    &&& registers_size + 5 < u16::MAX
    &&& registers_size + 5 + 2 * nb_params < u16::MAX + ins_size
}

/// The label where the guard of the `k`-th target of a call site lands when it fails.
fn abort_label_for(end_label: &String, k: usize) -> (r: String)
    ensures
        r@ == end_label@ + "_abort_"@ + hex_pad(k as nat, 1),
        r@ != end_label@,
{
    let mut s = end_label.clone();
    s.append("_abort_");
    crate::labels::push_hex_digits(k, 1, &mut s);
    proof {
        reveal_strlit("_abort_");
    }
    assert(s@.len() > end_label@.len());
    s
}

/// Two register states with the same scratch registers and argument window start.
pub open spec fn same_scratch(a: RegistersInfo, b: RegistersInfo) -> bool {
    a.first_arg == b.first_arg && a.array_val == b.array_val && a.array_index == b.array_index
        && a.array == b.array
}

proof fn lemma_unpack_scratch(ps: Seq<TyV>, arr: u8, first: int, a: RegistersInfo, b: RegistersInfo)
    requires
        same_scratch(a, b),
    ensures
        unpack_all(ps, arr, first, a) == unpack_all(ps, arr, first, b),
    decreases ps.len(),
{
    if ps.len() > 0 {
        lemma_unpack_scratch(ps.drop_last(), arr, first, a, b);
    }
}

/// A guarded block reads only the scratch registers and the start of the argument window.
proof fn lemma_invoke_block_scratch(
    d: ReflectionInvokeData,
    method_obj: u16,
    obj_inst: u16,
    arg_arr: u16,
    a: RegistersInfo,
    b: RegistersInfo,
    end_label: Seq<char>,
    abort: Seq<char>,
    move_result: Option<u8>,
    tester: MethodV,
)
    requires
        same_scratch(a, b),
    ensures
        invoke_block(d, method_obj, obj_inst, arg_arr, a, end_label, abort, move_result, tester)
            == invoke_block(d, method_obj, obj_inst, arg_arr, b, end_label, abort, move_result, tester),
{
    let callee = static_target(d.method, d.renamed_method);
    let first = (a.first_arg + if d.is_static {
        0int
    } else {
        1int
    }) as u16;
    lemma_unpack_scratch(callee.params, if arg_arr <= 15 {
        arg_arr as u8
    } else {
        a.array
    }, first as int, a, b);
}

/// The label where the guard of the `k`-th target of a call site lands when it fails.
pub open spec fn abort_of(end_label: Seq<char>, k: nat) -> Seq<char> {
    end_label + "_abort_"@ + hex_pad(k, 1)
}

/// The abort labels of one call site differ from each other and from its end label, so each
/// failed guard lands right after its own block.
pub proof fn lemma_abort_labels_distinct(end_label: Seq<char>, k1: nat, k2: nat)
    ensures
        abort_of(end_label, k1) != end_label,
        k1 != k2 ==> abort_of(end_label, k1) != abort_of(end_label, k2),
{
    reveal_strlit("_abort_");
    let p = end_label + "_abort_"@;
    assert(abort_of(end_label, k1).len() > end_label.len());
    if k1 != k2 && abort_of(end_label, k1) == abort_of(end_label, k2) {
        let a = abort_of(end_label, k1);
        assert(a.len() == p.len() + hex_pad(k1, 1).len());
        assert(a.len() == p.len() + hex_pad(k2, 1).len());
        assert(hex_pad(k1, 1) =~= a.subrange(p.len() as int, a.len() as int));
        assert(hex_pad(k2, 1) =~= a.subrange(p.len() as int, a.len() as int));
        crate::labels::lemma_hex_pad_injective(k1, k2, 1);
    }
}

/// Whether the block of the recorded call `d` can be built for the arguments `args` of the
/// call site, with the argument window starting at `first_arg` and below `limit`.
pub open spec fn invoke_buildable(d: ReflectionInvokeData, args: Seq<u16>, first_arg: u16, limit: u16) -> bool {
    let callee = static_target(d.method, d.renamed_method);
    args.len() == 3 && passable(callee.params) && d.method@.params.len() <= i32::MAX
        && callee.params.len() <= u16::MAX && first_arg + window(callee, d.is_static) < limit
}

/// `b` is the guarded block of the `k`-th recorded call `d` of a call site, calling a tester
/// of `pool`.
pub open spec fn invoke_block_in(
    pool: Seq<TesterEntry>,
    d: ReflectionInvokeData,
    args: Seq<u16>,
    ri: RegistersInfo,
    end_label: Seq<char>,
    k: nat,
    move_result: Option<u8>,
    b: Seq<InsV>,
) -> bool {
    exists|t: int|
        0 <= t < pool.len() && entry_is(#[trigger] pool[t], d.method@, tester_loader(d.method@, d.method_cl_id@))
            && b == invoke_block(
            d,
            args[0],
            args[1],
            args[2],
            ri,
            end_label,
            abort_of(end_label, k),
            move_result,
            pool[t].method.descriptor@,
        )
}

/// The blocks `bs` of a `Method.invoke()` call site whose recorded calls are `es`: one per
/// recorded call whose block can be built, in the order of the trace (`ix` gives their
/// positions).
pub open spec fn invoke_site_blocks(
    es: Seq<ReflectionInvokeData>,
    args: Seq<u16>,
    ri: RegistersInfo,
    limit: u16,
    end_label: Seq<char>,
    move_result: Option<u8>,
    pool: Seq<TesterEntry>,
    bs: Seq<Seq<InsV>>,
    ix: Seq<int>,
) -> bool {
    &&& bs.len() == ix.len()
    &&& forall|m: int| 0 <= m < ix.len() ==> 0 <= #[trigger] ix[m] < es.len()
    &&& forall|m1: int, m2: int| 0 <= m1 < m2 < ix.len() ==> #[trigger] ix[m1] < #[trigger] ix[m2]
    &&& forall|m: int|
        0 <= m < ix.len() ==> invoke_block_in(
            pool,
            es[ix[m]],
            args,
            ri,
            end_label,
            ix[m] as nat,
            move_result,
            #[trigger] bs[m],
        )
    &&& forall|k: int|
        0 <= k < es.len() ==> (invoke_buildable(#[trigger] es[k], args, ri.first_arg, limit)
            <==> ix.contains(k))
}

/// The calls to `Method.invoke()` recorded at the call site `label` of `m`, in trace order.
pub open spec fn invoke_entries(rd: RuntimeData, m: MethodV, label: Seq<char>) -> Seq<ReflectionInvokeData> {
    rd.invoke_data@.filter(|d: ReflectionInvokeData| crate::runtime_data::invoke_at(d, m, label))
}

/// The widest argument window among the recorded calls `es` at the positions `ix`.
pub open spec fn invoke_windows(es: Seq<ReflectionInvokeData>, ix: Seq<int>) -> nat
    decreases ix.len(),
{
    if ix.len() == 0 {
        0
    } else {
        let w = window(static_target(es[ix.last()].method, es[ix.last()].renamed_method), es[ix.last()].is_static);
        let rest = invoke_windows(es, ix.drop_last());
        if rest >= w {
            rest
        } else {
            w
        }
    }
}

/// Emits the guarded blocks of a `Method.invoke()` call site: one per recorded call whose block
/// can be built, in the order of the trace.
#[verifier::rlimit(80)]
pub fn invoke_site(
    call_args: &Vec<u16>,
    caller: &IdMethod,
    label: &String,
    end_label: &String,
    move_result: Option<u8>,
    runtime_data: &RuntimeData,
    reg_inf: &mut RegistersInfo,
    tester_methods_class: &DexType,
    tester_methods: &mut Vec<TesterEntry>,
    out: &mut Vec<Instruction>,
    limit: u16,
)
    requires
        end_label@.len() > 0,
        pool_unique(old(tester_methods)@),
        regs_ok(*old(reg_inf), limit),
    ensures
        pool_unique(final(tester_methods)@),
        regs_ok(*final(reg_inf), limit),
        same_scratch(*final(reg_inf), *old(reg_inf)),
        final(reg_inf).array_val_save == old(reg_inf).array_val_save,
        final(reg_inf).array_index_save == old(reg_inf).array_index_save,
        final(reg_inf).array_save == old(reg_inf).array_save,
        pool_extends(old(tester_methods)@, final(tester_methods)@),
        exists|bs: Seq<Seq<InsV>>, ix: Seq<int>|
            #[trigger] invoke_site_blocks(
                invoke_entries(*runtime_data, caller@, label@),
                call_args@,
                *old(reg_inf),
                limit,
                end_label@,
                move_result,
                final(tester_methods)@,
                bs,
                ix,
            ) && insns_view(final(out)@) == insns_view(old(out)@) + bs.flatten()
                && final(reg_inf).nb_arg_reg as nat == max_nat(
                old(reg_inf).nb_arg_reg as nat,
                invoke_windows(invoke_entries(*runtime_data, caller@, label@), ix),
            ),
{
    let entries = runtime_data.get_invoke_data_for(caller, label);
    let ghost es = invoke_entries(*runtime_data, caller@, label@);
    let ghost ri0 = *reg_inf;
    let ghost mut bs: Seq<Seq<InsV>> = seq![];
    let ghost mut ix: Seq<int> = seq![];
    let mut k: usize = 0;
    while k < entries.len()
        invariant
            k <= entries@.len(),
            entries@.map_values(|d: &ReflectionInvokeData| *d) == es,
            end_label@.len() > 0,
            pool_unique(tester_methods@),
            regs_ok(*reg_inf, limit),
            same_scratch(*reg_inf, ri0),
            ri0 == *old(reg_inf),
            pool_extends(old(tester_methods)@, tester_methods@),
            reg_inf.array_val_save == old(reg_inf).array_val_save,
            reg_inf.array_index_save == old(reg_inf).array_index_save,
            reg_inf.array_save == old(reg_inf).array_save,
            bs.len() == ix.len(),
            forall|m: int| 0 <= m < ix.len() ==> 0 <= #[trigger] ix[m] < k,
            forall|m1: int, m2: int| 0 <= m1 < m2 < ix.len() ==> #[trigger] ix[m1] < #[trigger] ix[m2],
            forall|m: int|
                0 <= m < ix.len() ==> invoke_block_in(
                    tester_methods@,
                    es[ix[m]],
                    call_args@,
                    ri0,
                    end_label@,
                    ix[m] as nat,
                    move_result,
                    #[trigger] bs[m],
                ),
            forall|k2: int|
                0 <= k2 < k ==> (invoke_buildable(#[trigger] es[k2], call_args@, ri0.first_arg, limit)
                    <==> ix.contains(k2)),
            insns_view(out@) == insns_view(old(out)@) + bs.flatten(),
            reg_inf.nb_arg_reg as nat == max_nat(ri0.nb_arg_reg as nat, invoke_windows(es, ix)),
        decreases entries@.len() - k,
    {
        let abort = abort_label_for(end_label, k);
        let ghost pool0 = tester_methods@;
        let ghost ri_before = *reg_inf;
        let ghost d = es[k as int];
        assert(*entries@[k as int] == d);
        match get_invoke_block(entries[k], call_args, reg_inf, end_label, &abort, move_result, tester_methods_class, tester_methods, limit) {
            Ok(mut b) => {
                let ghost bv = insns_view(b@);
                let ghost before_out = insns_view(out@);
                out.append(&mut b);
                proof {
                    assert(insns_view(out@) =~= before_out + bv);
                    bs.lemma_flatten_push(bv);
                    let t = choose|t: int|
                        0 <= t < tester_methods@.len() && entry_is(
                            #[trigger] tester_methods@[t],
                            d.method@,
                            tester_loader(d.method@, d.method_cl_id@),
                        ) && bv == invoke_block(
                            d,
                            call_args@[0],
                            call_args@[1],
                            call_args@[2],
                            *reg_inf,
                            end_label@,
                            abort@,
                            move_result,
                            tester_methods@[t].method.descriptor@,
                        );
                    lemma_invoke_block_scratch(
                        d,
                        call_args@[0],
                        call_args@[1],
                        call_args@[2],
                        *reg_inf,
                        ri0,
                        end_label@,
                        abort@,
                        move_result,
                        tester_methods@[t].method.descriptor@,
                    );
                    assert(invoke_block_in(tester_methods@, d, call_args@, ri0, end_label@, k as nat, move_result, bv));
                    assert forall|m: int| 0 <= m < ix.len() implies invoke_block_in(
                        tester_methods@,
                        es[ix[m]],
                        call_args@,
                        ri0,
                        end_label@,
                        ix[m] as nat,
                        move_result,
                        #[trigger] bs[m],
                    ) by {
                        assert(invoke_block_in(pool0, es[ix[m]], call_args@, ri0, end_label@, ix[m] as nat, move_result, bs[m]));
                        let t2 = choose|t2: int|
                            0 <= t2 < pool0.len() && entry_is(
                                #[trigger] pool0[t2],
                                es[ix[m]].method@,
                                tester_loader(es[ix[m]].method@, es[ix[m]].method_cl_id@),
                            ) && bs[m] == invoke_block(
                                es[ix[m]],
                                call_args@[0],
                                call_args@[1],
                                call_args@[2],
                                ri0,
                                end_label@,
                                abort_of(end_label@, ix[m] as nat),
                                move_result,
                                pool0[t2].method.descriptor@,
                            );
                        assert(tester_methods@[t2] == pool0[t2]);
                    }
                    let old_ix = ix;
                    let old_bs = bs;
                    bs = bs.push(bv);
                    ix = ix.push(k as int);
                    assert(ix.drop_last() =~= old_ix);
                    assert(ix.last() == k as int);
                    assert forall|m: int| 0 <= m < ix.len() implies invoke_block_in(
                        tester_methods@,
                        es[ix[m]],
                        call_args@,
                        ri0,
                        end_label@,
                        ix[m] as nat,
                        move_result,
                        #[trigger] bs[m],
                    ) by {
                        if m < old_ix.len() {
                            assert(bs[m] == old_bs[m]);
                            assert(ix[m] == old_ix[m]);
                        }
                    }
                    assert forall|k2: int| 0 <= k2 < k + 1 implies (invoke_buildable(
                        #[trigger] es[k2],
                        call_args@,
                        ri0.first_arg,
                        limit,
                    ) <==> ix.contains(k2)) by {
                        if k2 < k {
                            if old_ix.contains(k2) {
                                let m = choose|m: int| 0 <= m < old_ix.len() && old_ix[m] == k2;
                                assert(ix[m] == k2);
                            }
                            if ix.contains(k2) {
                                let m = choose|m: int| 0 <= m < ix.len() && ix[m] == k2;
                                assert(m < old_ix.len());
                                assert(old_ix[m] == k2);
                            }
                        } else {
                            assert(ix[ix.len() - 1] == k2);
                        }
                    }
                }
            },
            Err(_) => {
                proof {
                    assert forall|k2: int| 0 <= k2 < k + 1 implies (invoke_buildable(
                        #[trigger] es[k2],
                        call_args@,
                        ri0.first_arg,
                        limit,
                    ) <==> ix.contains(k2)) by {
                        if k2 == k {
                            if ix.contains(k2) {
                                let m = choose|m: int| 0 <= m < ix.len() && ix[m] == k2;
                            }
                        }
                    }
                }
            },
        }
        k += 1;
    }
    proof {
        assert(entries@.len() == es.len());
        assert(invoke_site_blocks(es, call_args@, ri0, limit, end_label@, move_result, tester_methods@, bs, ix));
        assert(insns_view(out@) == insns_view(old(out)@) + bs.flatten());
    }
}

/// A guarded block reads only the scratch registers and the start of the argument window.
proof fn lemma_cnstr_block_scratch(
    d: ReflectionCnstrNewInstData,
    cnst_reg: u16,
    arg_arr: u16,
    a: RegistersInfo,
    b: RegistersInfo,
    end_label: Seq<char>,
    abort: Seq<char>,
    move_result: Option<u8>,
    tester: MethodV,
)
    requires
        same_scratch(a, b),
    ensures
        cnstr_block(d, cnst_reg, arg_arr, a, end_label, abort, move_result, tester)
            == cnstr_block(d, cnst_reg, arg_arr, b, end_label, abort, move_result, tester),
{
    let first = (a.first_arg + 1) as u16;
    lemma_unpack_scratch(d.constructor@.params, if arg_arr <= 15 {
        arg_arr as u8
    } else {
        a.array
    }, first as int, a, b);
}

/// Whether the block of the recorded call `d` can be built for the arguments `args` of the
/// call site, with the argument window starting at `first_arg` and below `limit`.
pub open spec fn cnstr_buildable(d: ReflectionCnstrNewInstData, args: Seq<u16>, first_arg: u16, limit: u16) -> bool {
    let ps = d.constructor@.params;
    args.len() == 2 && passable(ps) && ps.len() <= u16::MAX && first_arg + params_width(ps) + 1
        < limit
}

/// `b` is the guarded block of the `k`-th recorded call `d` of a call site, calling a tester
/// of `pool`.
pub open spec fn cnstr_block_in(
    pool: Seq<TesterEntry>,
    d: ReflectionCnstrNewInstData,
    args: Seq<u16>,
    ri: RegistersInfo,
    end_label: Seq<char>,
    k: nat,
    move_result: Option<u8>,
    b: Seq<InsV>,
) -> bool {
    exists|t: int|
        0 <= t < pool.len() && entry_is(#[trigger] pool[t], d.constructor@, tester_loader(d.constructor@, d.constructor_cl_id@))
            && b == cnstr_block(
            d,
            args[0],
            args[1],
            ri,
            end_label,
            abort_of(end_label, k),
            move_result,
            pool[t].method.descriptor@,
        )
}

/// The blocks `bs` of a `Constructor.newInstance()` call site whose recorded calls are `es`: one per
/// recorded call whose block can be built, in the order of the trace (`ix` gives their
/// positions).
pub open spec fn cnstr_site_blocks(
    es: Seq<ReflectionCnstrNewInstData>,
    args: Seq<u16>,
    ri: RegistersInfo,
    limit: u16,
    end_label: Seq<char>,
    move_result: Option<u8>,
    pool: Seq<TesterEntry>,
    bs: Seq<Seq<InsV>>,
    ix: Seq<int>,
) -> bool {
    &&& bs.len() == ix.len()
    &&& forall|m: int| 0 <= m < ix.len() ==> 0 <= #[trigger] ix[m] < es.len()
    &&& forall|m1: int, m2: int| 0 <= m1 < m2 < ix.len() ==> #[trigger] ix[m1] < #[trigger] ix[m2]
    &&& forall|m: int|
        0 <= m < ix.len() ==> cnstr_block_in(
            pool,
            es[ix[m]],
            args,
            ri,
            end_label,
            ix[m] as nat,
            move_result,
            #[trigger] bs[m],
        )
    &&& forall|k: int|
        0 <= k < es.len() ==> (cnstr_buildable(#[trigger] es[k], args, ri.first_arg, limit)
            <==> ix.contains(k))
}

/// The calls to `Constructor.newInstance()` recorded at the call site `label` of `m`, in trace order.
pub open spec fn cnstr_entries(rd: RuntimeData, m: MethodV, label: Seq<char>) -> Seq<ReflectionCnstrNewInstData> {
    rd.cnstr_new_inst_data@.filter(|d: ReflectionCnstrNewInstData| crate::runtime_data::cnstr_new_inst_at(d, m, label))
}

/// The widest argument window among the recorded calls `es` at the positions `ix`.
pub open spec fn cnstr_windows(es: Seq<ReflectionCnstrNewInstData>, ix: Seq<int>) -> nat
    decreases ix.len(),
{
    if ix.len() == 0 {
        0
    } else {
        let w = params_width(es[ix.last()].constructor@.params) + 1;
        let rest = cnstr_windows(es, ix.drop_last());
        if rest >= w {
            rest
        } else {
            w
        }
    }
}

/// Emits the guarded blocks of a `Constructor.newInstance()` call site: one per recorded call whose block
/// can be built, in the order of the trace.
#[verifier::rlimit(80)]
pub fn cnstr_site(
    call_args: &Vec<u16>,
    caller: &IdMethod,
    label: &String,
    end_label: &String,
    move_result: Option<u8>,
    runtime_data: &RuntimeData,
    reg_inf: &mut RegistersInfo,
    tester_methods_class: &DexType,
    tester_methods: &mut Vec<TesterEntry>,
    out: &mut Vec<Instruction>,
    limit: u16,
)
    requires
        end_label@.len() > 0,
        pool_unique(old(tester_methods)@),
        regs_ok(*old(reg_inf), limit),
    ensures
        pool_unique(final(tester_methods)@),
        regs_ok(*final(reg_inf), limit),
        same_scratch(*final(reg_inf), *old(reg_inf)),
        final(reg_inf).array_val_save == old(reg_inf).array_val_save,
        final(reg_inf).array_index_save == old(reg_inf).array_index_save,
        final(reg_inf).array_save == old(reg_inf).array_save,
        pool_extends(old(tester_methods)@, final(tester_methods)@),
        exists|bs: Seq<Seq<InsV>>, ix: Seq<int>|
            #[trigger] cnstr_site_blocks(
                cnstr_entries(*runtime_data, caller@, label@),
                call_args@,
                *old(reg_inf),
                limit,
                end_label@,
                move_result,
                final(tester_methods)@,
                bs,
                ix,
            ) && insns_view(final(out)@) == insns_view(old(out)@) + bs.flatten()
                && final(reg_inf).nb_arg_reg as nat == max_nat(
                old(reg_inf).nb_arg_reg as nat,
                cnstr_windows(cnstr_entries(*runtime_data, caller@, label@), ix),
            ),
{
    let entries = runtime_data.get_cnstr_new_instance_data_for(caller, label);
    let ghost es = cnstr_entries(*runtime_data, caller@, label@);
    let ghost ri0 = *reg_inf;
    let ghost mut bs: Seq<Seq<InsV>> = seq![];
    let ghost mut ix: Seq<int> = seq![];
    let mut k: usize = 0;
    while k < entries.len()
        invariant
            k <= entries@.len(),
            entries@.map_values(|d: &ReflectionCnstrNewInstData| *d) == es,
            end_label@.len() > 0,
            pool_unique(tester_methods@),
            regs_ok(*reg_inf, limit),
            same_scratch(*reg_inf, ri0),
            ri0 == *old(reg_inf),
            pool_extends(old(tester_methods)@, tester_methods@),
            reg_inf.array_val_save == old(reg_inf).array_val_save,
            reg_inf.array_index_save == old(reg_inf).array_index_save,
            reg_inf.array_save == old(reg_inf).array_save,
            bs.len() == ix.len(),
            forall|m: int| 0 <= m < ix.len() ==> 0 <= #[trigger] ix[m] < k,
            forall|m1: int, m2: int| 0 <= m1 < m2 < ix.len() ==> #[trigger] ix[m1] < #[trigger] ix[m2],
            forall|m: int|
                0 <= m < ix.len() ==> cnstr_block_in(
                    tester_methods@,
                    es[ix[m]],
                    call_args@,
                    ri0,
                    end_label@,
                    ix[m] as nat,
                    move_result,
                    #[trigger] bs[m],
                ),
            forall|k2: int|
                0 <= k2 < k ==> (cnstr_buildable(#[trigger] es[k2], call_args@, ri0.first_arg, limit)
                    <==> ix.contains(k2)),
            insns_view(out@) == insns_view(old(out)@) + bs.flatten(),
            reg_inf.nb_arg_reg as nat == max_nat(ri0.nb_arg_reg as nat, cnstr_windows(es, ix)),
        decreases entries@.len() - k,
    {
        let abort = abort_label_for(end_label, k);
        let ghost pool0 = tester_methods@;
        let ghost ri_before = *reg_inf;
        let ghost d = es[k as int];
        assert(*entries@[k as int] == d);
        match get_cnstr_new_inst_block(entries[k], call_args, reg_inf, end_label, &abort, move_result, tester_methods_class, tester_methods, limit) {
            Ok(mut b) => {
                let ghost bv = insns_view(b@);
                let ghost before_out = insns_view(out@);
                out.append(&mut b);
                proof {
                    assert(insns_view(out@) =~= before_out + bv);
                    bs.lemma_flatten_push(bv);
                    let t = choose|t: int|
                        0 <= t < tester_methods@.len() && entry_is(
                            #[trigger] tester_methods@[t],
                            d.constructor@,
                            tester_loader(d.constructor@, d.constructor_cl_id@),
                        ) && bv == cnstr_block(
                            d,
                            call_args@[0],
                            call_args@[1],
                            *reg_inf,
                            end_label@,
                            abort@,
                            move_result,
                            tester_methods@[t].method.descriptor@,
                        );
                    lemma_cnstr_block_scratch(
                        d,
                        call_args@[0],
                        call_args@[1],
                        *reg_inf,
                        ri0,
                        end_label@,
                        abort@,
                        move_result,
                        tester_methods@[t].method.descriptor@,
                    );
                    assert(cnstr_block_in(tester_methods@, d, call_args@, ri0, end_label@, k as nat, move_result, bv));
                    assert forall|m: int| 0 <= m < ix.len() implies cnstr_block_in(
                        tester_methods@,
                        es[ix[m]],
                        call_args@,
                        ri0,
                        end_label@,
                        ix[m] as nat,
                        move_result,
                        #[trigger] bs[m],
                    ) by {
                        assert(cnstr_block_in(pool0, es[ix[m]], call_args@, ri0, end_label@, ix[m] as nat, move_result, bs[m]));
                        let t2 = choose|t2: int|
                            0 <= t2 < pool0.len() && entry_is(
                                #[trigger] pool0[t2],
                                es[ix[m]].constructor@,
                                tester_loader(es[ix[m]].constructor@, es[ix[m]].constructor_cl_id@),
                            ) && bs[m] == cnstr_block(
                                es[ix[m]],
                                call_args@[0],
                                call_args@[1],
                                ri0,
                                end_label@,
                                abort_of(end_label@, ix[m] as nat),
                                move_result,
                                pool0[t2].method.descriptor@,
                            );
                        assert(tester_methods@[t2] == pool0[t2]);
                    }
                    let old_ix = ix;
                    let old_bs = bs;
                    bs = bs.push(bv);
                    ix = ix.push(k as int);
                    assert(ix.drop_last() =~= old_ix);
                    assert(ix.last() == k as int);
                    assert forall|m: int| 0 <= m < ix.len() implies cnstr_block_in(
                        tester_methods@,
                        es[ix[m]],
                        call_args@,
                        ri0,
                        end_label@,
                        ix[m] as nat,
                        move_result,
                        #[trigger] bs[m],
                    ) by {
                        if m < old_ix.len() {
                            assert(bs[m] == old_bs[m]);
                            assert(ix[m] == old_ix[m]);
                        }
                    }
                    assert forall|k2: int| 0 <= k2 < k + 1 implies (cnstr_buildable(
                        #[trigger] es[k2],
                        call_args@,
                        ri0.first_arg,
                        limit,
                    ) <==> ix.contains(k2)) by {
                        if k2 < k {
                            if old_ix.contains(k2) {
                                let m = choose|m: int| 0 <= m < old_ix.len() && old_ix[m] == k2;
                                assert(ix[m] == k2);
                            }
                            if ix.contains(k2) {
                                let m = choose|m: int| 0 <= m < ix.len() && ix[m] == k2;
                                assert(m < old_ix.len());
                                assert(old_ix[m] == k2);
                            }
                        } else {
                            assert(ix[ix.len() - 1] == k2);
                        }
                    }
                }
            },
            Err(_) => {
                proof {
                    assert forall|k2: int| 0 <= k2 < k + 1 implies (cnstr_buildable(
                        #[trigger] es[k2],
                        call_args@,
                        ri0.first_arg,
                        limit,
                    ) <==> ix.contains(k2)) by {
                        if k2 == k {
                            if ix.contains(k2) {
                                let m = choose|m: int| 0 <= m < ix.len() && ix[m] == k2;
                            }
                        }
                    }
                }
            },
        }
        k += 1;
    }
    proof {
        assert(entries@.len() == es.len());
        assert(cnstr_site_blocks(es, call_args@, ri0, limit, end_label@, move_result, tester_methods@, bs, ix));
        assert(insns_view(out@) == insns_view(old(out)@) + bs.flatten());
    }
}

/// The calls to `Class.newInstance()` recorded at the call site `label` of `m`, in trace order.
pub open spec fn class_entries(rd: RuntimeData, m: MethodV, label: Seq<char>) -> Seq<ReflectionClassNewInstData> {
    rd.class_new_inst_data@.filter(
        |d: ReflectionClassNewInstData| crate::runtime_data::class_new_inst_at(d, m, label),
    )
}

/// Whether the block of the recorded instantiation `d` can be built for the arguments `args`.
pub open spec fn class_buildable(d: ReflectionClassNewInstData, args: Seq<u16>) -> bool {
    args.len() == 1 && d.constructor@.params.len() == 0 && args[0] <= 255
}

/// The blocks `bs` of a `Class.newInstance()` call site whose recorded instantiations are
/// `es`: one per instantiation whose block can be built, in trace order (`ix` gives their
/// positions).
pub open spec fn class_site_blocks(
    es: Seq<ReflectionClassNewInstData>,
    args: Seq<u16>,
    ri: RegistersInfo,
    end_label: Seq<char>,
    move_result: Option<u8>,
    bs: Seq<Seq<InsV>>,
    ix: Seq<int>,
) -> bool {
    &&& bs.len() == ix.len()
    &&& forall|m: int| 0 <= m < ix.len() ==> 0 <= #[trigger] ix[m] < es.len()
    &&& forall|m1: int, m2: int| 0 <= m1 < m2 < ix.len() ==> #[trigger] ix[m1] < #[trigger] ix[m2]
    &&& forall|m: int|
        0 <= m < ix.len() ==> #[trigger] bs[m] == class_new_inst_block(
            es[ix[m]],
            args[0] as u8,
            ri,
            end_label,
            abort_of(end_label, ix[m] as nat),
            move_result,
        )
    &&& forall|k: int| 0 <= k < es.len() ==> (class_buildable(#[trigger] es[k], args) <==> ix.contains(k))
}

/// Emits the guarded blocks of a `Class.newInstance()` call site: one per recorded
/// instantiation whose block can be built, in the order of the trace.
pub fn class_site(
    call_args: &Vec<u16>,
    caller: &IdMethod,
    label: &String,
    end_label: &String,
    move_result: Option<u8>,
    runtime_data: &RuntimeData,
    reg_inf: &RegistersInfo,
    out: &mut Vec<Instruction>,
)
    requires
        end_label@.len() > 0,
    ensures
        exists|bs: Seq<Seq<InsV>>, ix: Seq<int>|
            #[trigger] class_site_blocks(
                class_entries(*runtime_data, caller@, label@),
                call_args@,
                *reg_inf,
                end_label@,
                move_result,
                bs,
                ix,
            ) && insns_view(final(out)@) == insns_view(old(out)@) + bs.flatten(),
{
    let entries = runtime_data.get_class_new_instance_data_for(caller, label);
    let ghost es = class_entries(*runtime_data, caller@, label@);
    let ghost mut bs: Seq<Seq<InsV>> = seq![];
    let ghost mut ix: Seq<int> = seq![];
    let mut k: usize = 0;
    while k < entries.len()
        invariant
            k <= entries@.len(),
            entries@.map_values(|d: &ReflectionClassNewInstData| *d) == es,
            end_label@.len() > 0,
            bs.len() == ix.len(),
            forall|m: int| 0 <= m < ix.len() ==> 0 <= #[trigger] ix[m] < k,
            forall|m1: int, m2: int| 0 <= m1 < m2 < ix.len() ==> #[trigger] ix[m1] < #[trigger] ix[m2],
            forall|m: int|
                0 <= m < ix.len() ==> #[trigger] bs[m] == class_new_inst_block(
                    es[ix[m]],
                    call_args@[0] as u8,
                    *reg_inf,
                    end_label@,
                    abort_of(end_label@, ix[m] as nat),
                    move_result,
                ),
            forall|k2: int| 0 <= k2 < k ==> (class_buildable(#[trigger] es[k2], call_args@) <==> ix.contains(k2)),
            insns_view(out@) == insns_view(old(out)@) + bs.flatten(),
        decreases entries@.len() - k,
    {
        let abort = abort_label_for(end_label, k);
        let ghost d = es[k as int];
        assert(*entries@[k as int] == d);
        match get_class_new_inst_block(entries[k], call_args, reg_inf, end_label, &abort, move_result) {
            Ok(mut b) => {
                let ghost bv = insns_view(b@);
                let ghost before_out = insns_view(out@);
                out.append(&mut b);
                proof {
                    assert(insns_view(out@) =~= before_out + bv);
                    bs.lemma_flatten_push(bv);
                    let old_ix = ix;
                    let old_bs = bs;
                    bs = bs.push(bv);
                    ix = ix.push(k as int);
                    assert forall|m: int| 0 <= m < ix.len() implies #[trigger] bs[m] == class_new_inst_block(
                        es[ix[m]],
                        call_args@[0] as u8,
                        *reg_inf,
                        end_label@,
                        abort_of(end_label@, ix[m] as nat),
                        move_result,
                    ) by {
                        if m < old_ix.len() {
                            assert(bs[m] == old_bs[m]);
                            assert(ix[m] == old_ix[m]);
                        }
                    }
                    assert forall|k2: int| 0 <= k2 < k + 1 implies (class_buildable(#[trigger] es[k2], call_args@)
                        <==> ix.contains(k2)) by {
                        if k2 < k {
                            if old_ix.contains(k2) {
                                let m = choose|m: int| 0 <= m < old_ix.len() && old_ix[m] == k2;
                                assert(ix[m] == k2);
                            }
                            if ix.contains(k2) {
                                let m = choose|m: int| 0 <= m < ix.len() && ix[m] == k2;
                                assert(m < old_ix.len());
                                assert(old_ix[m] == k2);
                            }
                        } else {
                            assert(ix[ix.len() - 1] == k2);
                        }
                    }
                }
            },
            Err(_) => {
                proof {
                    assert forall|k2: int| 0 <= k2 < k + 1 implies (class_buildable(#[trigger] es[k2], call_args@)
                        <==> ix.contains(k2)) by {
                        if k2 == k {
                            if ix.contains(k2) {
                                let m = choose|m: int| 0 <= m < ix.len() && ix[m] == k2;
                            }
                        }
                    }
                }
            },
        }
        k += 1;
    }
    proof {
        assert(entries@.len() == es.len());
        assert(class_site_blocks(es, call_args@, *reg_inf, end_label@, move_result, bs, ix));
    }
}

/// The call-site label in force before position `p`: the last `Label` named like a call site
/// with nothing but pseudo-instructions after it.
pub open spec fn pending_label(insns: Seq<Instruction>, p: int) -> Option<Seq<char>>
    decreases p,
{
    if p <= 0 || p > insns.len() {
        None
    } else if insns[p - 1] is Label && is_site_label(insns[p - 1]->Label_name@) {
        Some(insns[p - 1]->Label_name@)
    } else if insns[p - 1].spec_is_pseudo() {
        pending_label(insns, p - 1)
    } else {
        None
    }
}

/// The instruction at `p` is an intercepted reflective call, right after a call-site label for
/// which the trace recorded targets.
pub open spec fn recorded_site(insns: Seq<Instruction>, rd: RuntimeData, m: MethodV, p: int) -> bool {
    &&& reflection_kind(insns[p]@) is Some
    &&& pending_label(insns, p) is Some
    &&& site_recorded(rd, m, pending_label(insns, p)->0, reflection_kind(insns[p]@)->0)
}

/// The scratch registers a rewrite of a method with `rs` registers starts with: directly
/// above the method's registers when they fit a 4-bit operand, otherwise a save slot there.
pub open spec fn initial_regs(rs: u16) -> RegistersInfo {
    RegistersInfo {
        array_val: if rs < 15 {
            rs as u8
        } else {
            0
        },
        array_val_save: if rs < 15 {
            None
        } else {
            Some(rs)
        },
        array_index: if rs + 2 <= 15 {
            (rs + 2) as u8
        } else {
            0
        },
        array_index_save: if rs + 2 <= 15 {
            None
        } else {
            Some((rs + 2) as u16)
        },
        array: if rs + 3 <= 15 {
            (rs + 3) as u8
        } else {
            0
        },
        array_save: if rs + 3 <= 15 {
            None
        } else {
            Some((rs + 3) as u16)
        },
        first_arg: (rs + 4) as u16,
        nb_arg_reg: 0,
    }
}

/// The registers left unavailable after the wide pair and the index register are chosen.
pub open spec fn used_after_two(rs: u16, types: Seq<RegType>, used: Seq<u16>) -> (Seq<u16>, Seq<u16>) {
    let ri = initial_regs(rs);
    let u1 = used_after_pair(types, used, ri.array_val_save);
    (u1, used_after_single(types, u1, ri.array_index_save, Slot::Index))
}

/// Whether every scratch register that has to be borrowed at a call site can be.
pub open spec fn staging_ok(rs: u16, types: Seq<RegType>, used: Seq<u16>) -> bool {
    let ri = initial_regs(rs);
    let (u1, u2) = used_after_two(rs, types, used);
    (!needs_pair(ri.array_val_save) || pick_pair(types, used) is Some) && (!needs_single(
        ri.array_index_save,
    ) || pick_single(types, u1, Slot::Index) is Some) && (!needs_single(ri.array_save)
        || pick_single(types, u2, Slot::Array) is Some)
}

/// The moves that save (`back == false`) or restore the registers borrowed at a call site.
pub open spec fn staging_moves(rs: u16, types: Seq<RegType>, used: Seq<u16>, back: bool) -> Seq<Instruction> {
    let ri = initial_regs(rs);
    let (u1, u2) = used_after_two(rs, types, used);
    pair_part(types, used, ri.array_val_save, back) + single_part(
        types,
        u1,
        ri.array_index_save,
        Slot::Index,
        back,
    ) + single_part(types, u2, ri.array_save, Slot::Array, back)
}

/// `ri` holds the scratch registers of the call site: the borrowed ones where they had to be
/// borrowed, the initial ones elsewhere.
pub open spec fn staged_scratch(ri: RegistersInfo, rs: u16, types: Seq<RegType>, used: Seq<u16>) -> bool {
    let init = initial_regs(rs);
    let (u1, u2) = used_after_two(rs, types, used);
    &&& ri.first_arg == init.first_arg
    &&& ri.array_val as int == if needs_pair(init.array_val_save) {
        chosen(pick_pair(types, used))
    } else {
        init.array_val as int
    }
    &&& ri.array_index as int == if needs_single(init.array_index_save) {
        chosen(pick_single(types, u1, Slot::Index))
    } else {
        init.array_index as int
    }
    &&& ri.array as int == if needs_single(init.array_save) {
        chosen(pick_single(types, u2, Slot::Array))
    } else {
        init.array as int
    }
}

/// Where the rewriting of the call site at `p` stops: after its `move-result-object` if it has
/// one, otherwise after the call.
pub open spec fn site_end(insns: Seq<Instruction>, p: int) -> int {
    match move_result_after(insns, p + 1) {
        Some((j, _)) => j + 1,
        None => p + 1,
    }
}

/// The register that receives the result of the call at `p`.
pub open spec fn site_mr(insns: Seq<Instruction>, p: int) -> Option<u8> {
    match move_result_after(insns, p + 1) {
        Some((_, to)) => Some(to),
        None => None,
    }
}

/// The registers that the call at `p` and its `move-result-object` name.
pub open spec fn site_used(insns: Seq<Instruction>, p: int) -> Seq<u16> {
    insns[p]->Invoke_args@ + match site_mr(insns, p) {
        Some(to) => seq![to as u16],
        None => Seq::<u16>::empty(),
    }
}

/// The guarded blocks `bs` of a call site of `kind`, by the contract of its emitter.
pub open spec fn site_blocks_ok(
    kind: ReflectionKind,
    rd: RuntimeData,
    m: MethodV,
    label: Seq<char>,
    args: Seq<u16>,
    ri: RegistersInfo,
    limit: u16,
    end_label: Seq<char>,
    mr: Option<u8>,
    pool: Seq<TesterEntry>,
    bs: Seq<Seq<InsV>>,
    ix: Seq<int>,
) -> bool {
    match kind {
        ReflectionKind::MethodInvoke => invoke_site_blocks(
            invoke_entries(rd, m, label),
            args,
            ri,
            limit,
            end_label,
            mr,
            pool,
            bs,
            ix,
        ),
        ReflectionKind::ConstructorNewInstance => cnstr_site_blocks(
            cnstr_entries(rd, m, label),
            args,
            ri,
            limit,
            end_label,
            mr,
            pool,
            bs,
            ix,
        ),
        ReflectionKind::ClassNewInstance => class_site_blocks(
            class_entries(rd, m, label),
            args,
            ri,
            end_label,
            mr,
            bs,
            ix,
        ),
    }
}

/// The widest argument window of the blocks of a call site.
pub open spec fn site_window(kind: ReflectionKind, rd: RuntimeData, m: MethodV, label: Seq<char>, ix: Seq<int>) -> nat {
    match kind {
        ReflectionKind::MethodInvoke => invoke_windows(invoke_entries(rd, m, label), ix),
        ReflectionKind::ConstructorNewInstance => cnstr_windows(cnstr_entries(rd, m, label), ix),
        ReflectionKind::ClassNewInstance => 0,
    }
}

/// The layout of a rewritten call site.
pub open spec fn site_layout(
    saves: Seq<InsV>,
    blocks: Seq<InsV>,
    call: Seq<InsV>,
    end_label: Seq<char>,
    restores: Seq<InsV>,
) -> Seq<InsV> {
    saves + blocks + call + seq![InsV::Label { name: end_label }] + restores
}

/// The rewriting of the recorded call site at `p0`, which covers the instructions `p0..p1`:
/// the call and, when it has one, the pseudo-instructions and the `move-result-object` that
/// take its result. The registers it needs can be borrowed, and it becomes the moves that save
/// them, the guarded blocks of its recorded targets (see [`site_blocks_ok`]; their testers are
/// in `pool`), the call and what follows it unchanged, the end label of the site, and the moves
/// that restore the borrowed registers. `w` is its widest argument window.
pub open spec fn patched_site(
    insns: Seq<Instruction>,
    rd: RuntimeData,
    m: MethodV,
    rs: u16,
    rt: Seq<(String, Vec<RegType>)>,
    limit: u16,
    pool: Seq<TesterEntry>,
    p0: int,
    p1: int,
    seg: Seq<InsV>,
    w: nat,
) -> bool {
    let kind = reflection_kind(insns[p0]@)->0;
    let label = pending_label(insns, p0)->0;
    let types = types_for(rt, label);
    let used = site_used(insns, p0);
    let end = end_label_of(kind, label);
    &&& 0 <= p0 < insns.len()
    &&& recorded_site(insns, rd, m, p0)
    &&& p1 == site_end(insns, p0)
    &&& staging_ok(rs, types, used)
    &&& exists|pl: Seq<TesterEntry>, ri: RegistersInfo, bs: Seq<Seq<InsV>>, ix: Seq<int>|
        #[trigger] site_blocks_ok(
            kind,
            rd,
            m,
            label,
            insns[p0]->Invoke_args@,
            ri,
            limit,
            end,
            site_mr(insns, p0),
            pl,
            bs,
            ix,
        ) && pool_extends(pl, pool) && staged_scratch(ri, rs, types, used) && w == site_window(
            kind,
            rd,
            m,
            label,
            ix,
        ) && seg == site_layout(
            insns_view(staging_moves(rs, types, used, false)),
            bs.flatten(),
            insns_view(insns.subrange(p0, p1)),
            end,
            insns_view(staging_moves(rs, types, used, true)),
        )
}

/// A segment of the rewritten body: the instruction at `p0` copied, or a rewritten call site.
/// A recorded call site is copied only when the registers it needs cannot be borrowed.
pub open spec fn body_segment(
    insns: Seq<Instruction>,
    rd: RuntimeData,
    m: MethodV,
    rs: u16,
    rt: Seq<(String, Vec<RegType>)>,
    limit: u16,
    pool: Seq<TesterEntry>,
    p0: int,
    p1: int,
    seg: Seq<InsV>,
    w: nat,
) -> bool {
    (0 <= p0 && p1 == p0 + 1 && p1 <= insns.len() && seg == seq![insns[p0]@] && w == 0 && (
    recorded_site(insns, rd, m, p0) ==> !staging_ok(
        rs,
        types_for(rt, pending_label(insns, p0)->0),
        site_used(insns, p0),
    ))) || patched_site(insns, rd, m, rs, rt, limit, pool, p0, p1, seg, w)
}

/// The largest of a list of numbers, `0` for none.
pub open spec fn seq_max(ws: Seq<nat>) -> nat
    decreases ws.len(),
{
    if ws.len() == 0 {
        0
    } else {
        max_nat(seq_max(ws.drop_last()), ws.last())
    }
}

/// The rewritten body of `insns` up to position `upto`, cut into `segs` at `cuts`; `ws` are
/// the widest argument windows of the segments.
pub open spec fn body_cut(
    insns: Seq<Instruction>,
    rd: RuntimeData,
    m: MethodV,
    rs: u16,
    rt: Seq<(String, Vec<RegType>)>,
    limit: u16,
    pool: Seq<TesterEntry>,
    segs: Seq<Seq<InsV>>,
    cuts: Seq<int>,
    ws: Seq<nat>,
    upto: int,
) -> bool {
    &&& cuts.len() == segs.len() + 1
    &&& ws.len() == segs.len()
    &&& cuts[0] == 0
    &&& cuts.last() == upto
    &&& forall|k: int|
        0 <= k < segs.len() ==> body_segment(
            insns,
            rd,
            m,
            rs,
            rt,
            limit,
            pool,
            cuts[k],
            cuts[k + 1],
            #[trigger] segs[k],
            ws[k],
        )
}

/// Appending a segment keeps the body cut.
proof fn lemma_push_segment(
    insns: Seq<Instruction>,
    rd: RuntimeData,
    m: MethodV,
    rs: u16,
    rt: Seq<(String, Vec<RegType>)>,
    limit: u16,
    pool: Seq<TesterEntry>,
    segs: Seq<Seq<InsV>>,
    cuts: Seq<int>,
    ws: Seq<nat>,
    p0: int,
    p1: int,
    seg: Seq<InsV>,
    w: nat,
)
    requires
        body_cut(insns, rd, m, rs, rt, limit, pool, segs, cuts, ws, p0),
        body_segment(insns, rd, m, rs, rt, limit, pool, p0, p1, seg, w),
    ensures
        body_cut(insns, rd, m, rs, rt, limit, pool, segs.push(seg), cuts.push(p1), ws.push(w), p1),
        segs.push(seg).flatten() == segs.flatten() + seg,
        seq_max(ws.push(w)) == max_nat(seq_max(ws), w),
{
    segs.lemma_flatten_push(seg);
    assert(ws.push(w).drop_last() =~= ws);
    let s2 = segs.push(seg);
    let c2 = cuts.push(p1);
    let w2 = ws.push(w);
    assert forall|k2: int| 0 <= k2 < s2.len() implies body_segment(
        insns,
        rd,
        m,
        rs,
        rt,
        limit,
        pool,
        c2[k2],
        c2[k2 + 1],
        #[trigger] s2[k2],
        w2[k2],
    ) by {
        if k2 < segs.len() {
            assert(s2[k2] == segs[k2]);
            assert(c2[k2] == cuts[k2]);
            assert(c2[k2 + 1] == cuts[k2 + 1]);
            assert(w2[k2] == ws[k2]);
        }
    }
}

/// A body cut stays one when the tester pool grows.
proof fn lemma_body_cut_grow(
    insns: Seq<Instruction>,
    rd: RuntimeData,
    m: MethodV,
    rs: u16,
    rt: Seq<(String, Vec<RegType>)>,
    limit: u16,
    p1: Seq<TesterEntry>,
    p2: Seq<TesterEntry>,
    segs: Seq<Seq<InsV>>,
    cuts: Seq<int>,
    ws: Seq<nat>,
    upto: int,
)
    requires
        body_cut(insns, rd, m, rs, rt, limit, p1, segs, cuts, ws, upto),
        pool_extends(p1, p2),
    ensures
        body_cut(insns, rd, m, rs, rt, limit, p2, segs, cuts, ws, upto),
{
    assert forall|k: int| 0 <= k < segs.len() implies body_segment(
        insns,
        rd,
        m,
        rs,
        rt,
        limit,
        p2,
        cuts[k],
        cuts[k + 1],
        #[trigger] segs[k],
        ws[k],
    ) by {
        if !body_segment(insns, rd, m, rs, rt, limit, p1, cuts[k], cuts[k + 1], segs[k], ws[k]) {
        } else if patched_site(insns, rd, m, rs, rt, limit, p1, cuts[k], cuts[k + 1], segs[k], ws[k]) {
            let p0 = cuts[k];
            let kind = reflection_kind(insns[p0]@)->0;
            let label = pending_label(insns, p0)->0;
            let (pl, ri, bs, ix) = choose|pl: Seq<TesterEntry>, ri: RegistersInfo, bs: Seq<Seq<InsV>>, ix: Seq<int>|
                #[trigger] site_blocks_ok(
                    kind,
                    rd,
                    m,
                    label,
                    insns[p0]->Invoke_args@,
                    ri,
                    limit,
                    end_label_of(kind, label),
                    site_mr(insns, p0),
                    pl,
                    bs,
                    ix,
                ) && pool_extends(pl, p1) && staged_scratch(
                    ri,
                    rs,
                    types_for(rt, label),
                    site_used(insns, p0),
                ) && ws[k] == site_window(kind, rd, m, label, ix) && segs[k] == site_layout(
                    insns_view(staging_moves(rs, types_for(rt, label), site_used(insns, p0), false)),
                    bs.flatten(),
                    insns_view(insns.subrange(p0, cuts[k + 1])),
                    end_label_of(kind, label),
                    insns_view(staging_moves(rs, types_for(rt, label), site_used(insns, p0), true)),
                );
            assert(pool_extends(pl, p2));
        }
    }
}

/// Whether a label marks a call site of interest: its name starts with `THESEUS_ADDR_`.
pub open spec fn is_site_label(name: Seq<char>) -> bool {
    name.len() >= 13 && name.take(13) == "THESEUS_ADDR_"@
}

fn has_site_prefix(name: &String) -> (r: bool)
    ensures
        r == is_site_label(name@),
{
    let prefix = "THESEUS_ADDR_";
    proof {
        reveal_strlit("THESEUS_ADDR_");
    }
    let s = name.as_str();
    if s.unicode_len() < 13 {
        return false;
    }
    let mut k: usize = 0;
    while k < 13
        invariant
            k <= 13,
            s@ == name@,
            s@.len() >= 13,
            prefix@ == "THESEUS_ADDR_"@,
            prefix@.len() == 13,
            forall|x: int| 0 <= x < k ==> s@[x] == prefix@[x],
        decreases 13 - k,
    {
        if s.get_char(k) != prefix.get_char(k) {
            assert(name@.take(13)[k as int] != "THESEUS_ADDR_"@[k as int]);
            return false;
        }
        k += 1;
    }
    assert(name@.take(13) =~= "THESEUS_ADDR_"@);
    true
}

fn call_args(ins: &Instruction) -> (r: Vec<u16>)
    ensures
        ins is Invoke ==> r@ == ins->Invoke_args@,
{
    match ins {
        Instruction::Invoke { args, .. } => {
            let mut r: Vec<u16> = Vec::new();
            let mut k: usize = 0;
            while k < args.len()
                invariant
                    k <= args@.len(),
                    r@ == args@.take(k as int),
                decreases args@.len() - k,
            {
                r.push(args[k]);
                k += 1;
                assert(r@ =~= args@.take(k as int));
            }
            assert(args@.take(k as int) =~= args@);
            r
        },
        _ => Vec::new(),
    }
}

/// The register state of a rewrite of a method with `rs` registers: the save slots and the
/// argument window are the initial ones, and a scratch register that is never borrowed keeps
/// its initial value.
pub open spec fn regs_in_rewrite(ri: RegistersInfo, rs: u16) -> bool {
    let init = initial_regs(rs);
    &&& ri.first_arg == init.first_arg
    &&& ri.array_val_save == init.array_val_save
    &&& ri.array_index_save == init.array_index_save
    &&& ri.array_save == init.array_save
    &&& !needs_pair(init.array_val_save) ==> ri.array_val == init.array_val
    &&& !needs_single(init.array_index_save) ==> ri.array_index == init.array_index
    &&& !needs_single(init.array_save) ==> ri.array == init.array
}

/// The bound under which the argument window keeps the parameter moves in range.
pub open spec fn arg_limit(rs: u16, ins_size: u16, nb_params: nat) -> u16 {
    if 2 * nb_params >= ins_size {
        (u16::MAX - (2 * nb_params - ins_size)) as u16
    } else {
        u16::MAX
    }
}

/// Emits the guarded blocks of a call site of `kind` (see [`site_blocks_ok`]).
#[verifier::rlimit(60)]
fn emit_site_blocks(
    kind: ReflectionKind,
    args: &Vec<u16>,
    caller: &IdMethod,
    label: &String,
    end_label: &String,
    mrv: Option<u8>,
    runtime_data: &RuntimeData,
    reg_info: &mut RegistersInfo,
    tester_methods_class: &DexType,
    tester_methods: &mut Vec<TesterEntry>,
    out: &mut Vec<Instruction>,
    limit: u16,
)
    requires
        end_label@.len() > 0,
        pool_unique(old(tester_methods)@),
        regs_ok(*old(reg_info), limit),
    ensures
        pool_unique(final(tester_methods)@),
        regs_ok(*final(reg_info), limit),
        same_scratch(*final(reg_info), *old(reg_info)),
        final(reg_info).array_val_save == old(reg_info).array_val_save,
        final(reg_info).array_index_save == old(reg_info).array_index_save,
        final(reg_info).array_save == old(reg_info).array_save,
        pool_extends(old(tester_methods)@, final(tester_methods)@),
        exists|bs: Seq<Seq<InsV>>, ix: Seq<int>|
            #[trigger] site_blocks_ok(
                kind,
                *runtime_data,
                caller@,
                label@,
                args@,
                *old(reg_info),
                limit,
                end_label@,
                mrv,
                final(tester_methods)@,
                bs,
                ix,
            ) && insns_view(final(out)@) == insns_view(old(out)@) + bs.flatten()
                && final(reg_info).nb_arg_reg as nat == max_nat(
                old(reg_info).nb_arg_reg as nat,
                site_window(kind, *runtime_data, caller@, label@, ix),
            ),
{
    let ghost o1 = insns_view(out@);
    let ghost ri_s = *reg_info;
    let ghost nb_s = reg_info.nb_arg_reg;
    let ghost mut bs: Seq<Seq<InsV>> = seq![];
    let ghost mut ix: Seq<int> = seq![];
    match kind {
        ReflectionKind::MethodInvoke => {
            invoke_site(
                args,
                caller,
                label,
                end_label,
                mrv,
                runtime_data,
                reg_info,
                tester_methods_class,
                tester_methods,
                out,
                limit,
            );
            proof {
                let (b, x) = choose|b: Seq<Seq<InsV>>, x: Seq<int>|
                    #[trigger] invoke_site_blocks(
                        invoke_entries(*runtime_data, caller@, label@),
                        args@,
                        ri_s,
                        limit,
                        end_label@,
                        mrv,
                        tester_methods@,
                        b,
                        x,
                    ) && insns_view(out@) == o1 + b.flatten() && reg_info.nb_arg_reg as nat
                        == max_nat(nb_s as nat, invoke_windows(invoke_entries(*runtime_data, caller@, label@), x));
                bs = b;
                ix = x;
            }
        },
        ReflectionKind::ConstructorNewInstance => {
            cnstr_site(
                args,
                caller,
                label,
                end_label,
                mrv,
                runtime_data,
                reg_info,
                tester_methods_class,
                tester_methods,
                out,
                limit,
            );
            proof {
                let (b, x) = choose|b: Seq<Seq<InsV>>, x: Seq<int>|
                    #[trigger] cnstr_site_blocks(
                        cnstr_entries(*runtime_data, caller@, label@),
                        args@,
                        ri_s,
                        limit,
                        end_label@,
                        mrv,
                        tester_methods@,
                        b,
                        x,
                    ) && insns_view(out@) == o1 + b.flatten() && reg_info.nb_arg_reg as nat
                        == max_nat(nb_s as nat, cnstr_windows(cnstr_entries(*runtime_data, caller@, label@), x));
                bs = b;
                ix = x;
            }
        },
        ReflectionKind::ClassNewInstance => {
            class_site(args, caller, label, end_label, mrv, runtime_data, reg_info, out);
            proof {
                let (b, x) = choose|b: Seq<Seq<InsV>>, x: Seq<int>|
                    #[trigger] class_site_blocks(
                        class_entries(*runtime_data, caller@, label@),
                        args@,
                        ri_s,
                        end_label@,
                        mrv,
                        b,
                        x,
                    ) && insns_view(out@) == o1 + b.flatten();
                bs = b;
                ix = x;
            }
        },
    }
    assert(site_blocks_ok(
        kind,
        *runtime_data,
        caller@,
        label@,
        args@,
        ri_s,
        limit,
        end_label@,
        mrv,
        tester_methods@,
        bs,
        ix,
    ));
}

proof fn lemma_patched_site(
    insns: Seq<Instruction>,
    rd: RuntimeData,
    m: MethodV,
    rs: u16,
    rt: Seq<(String, Vec<RegType>)>,
    limit: u16,
    pool: Seq<TesterEntry>,
    p0: int,
    p1: int,
    seg: Seq<InsV>,
    w: nat,
    pl: Seq<TesterEntry>,
    ri: RegistersInfo,
    bs: Seq<Seq<InsV>>,
    ix: Seq<int>,
)
    requires
        0 <= p0 < insns.len(),
        recorded_site(insns, rd, m, p0),
        p1 == site_end(insns, p0),
        staging_ok(rs, types_for(rt, pending_label(insns, p0)->0), site_used(insns, p0)),
        site_blocks_ok(
            reflection_kind(insns[p0]@)->0,
            rd,
            m,
            pending_label(insns, p0)->0,
            insns[p0]->Invoke_args@,
            ri,
            limit,
            end_label_of(reflection_kind(insns[p0]@)->0, pending_label(insns, p0)->0),
            site_mr(insns, p0),
            pl,
            bs,
            ix,
        ),
        pool_extends(pl, pool),
        staged_scratch(ri, rs, types_for(rt, pending_label(insns, p0)->0), site_used(insns, p0)),
        w == site_window(reflection_kind(insns[p0]@)->0, rd, m, pending_label(insns, p0)->0, ix),
        seg == site_layout(
            insns_view(staging_moves(rs, types_for(rt, pending_label(insns, p0)->0), site_used(insns, p0), false)),
            bs.flatten(),
            insns_view(insns.subrange(p0, p1)),
            end_label_of(reflection_kind(insns[p0]@)->0, pending_label(insns, p0)->0),
            insns_view(staging_moves(rs, types_for(rt, pending_label(insns, p0)->0), site_used(insns, p0), true)),
        ),
    ensures
        patched_site(insns, rd, m, rs, rt, limit, pool, p0, p1, seg, w),
{
}

/// Borrows the registers the call site at `i` needs and emits the moves that save them;
/// returns the moves that restore them. When they cannot be borrowed, copies the call alone
/// and returns `None`.
fn stage_site(
    insns: &Vec<Instruction>,
    i: usize,
    label: &String,
    rs: u16,
    staging: bool,
    reg_info: &mut RegistersInfo,
    regs_types: &Vec<(String, Vec<RegType>)>,
    limit: u16,
    out: &mut Vec<Instruction>,
) -> (r: Option<Vec<Instruction>>)
    requires
        i < insns@.len(),
        reflection_kind(insns@[i as int]@) is Some,
        staging == (rs > 12),
        regs_ok(*old(reg_info), limit),
        regs_in_rewrite(*old(reg_info), rs),
    ensures
        ({
            let tv = types_for(regs_types@, label@);
            let uv = site_used(insns@, i as int);
            &&& r is Some <==> staging_ok(rs, tv, uv)
            &&& r matches Some(rest) ==> {
                &&& rest@ == staging_moves(rs, tv, uv, true)
                &&& insns_view(final(out)@) == insns_view(old(out)@) + insns_view(
                    staging_moves(rs, tv, uv, false),
                )
                &&& staged_scratch(*final(reg_info), rs, tv, uv)
                &&& regs_in_rewrite(*final(reg_info), rs)
                &&& final(reg_info).nb_arg_reg == old(reg_info).nb_arg_reg
                &&& regs_ok(*final(reg_info), limit)
            }
            &&& r is None ==> insns_view(final(out)@) == insns_view(old(out)@).push(insns@[i as int]@)
                && *final(reg_info) == *old(reg_info)
        }),
{
    let n0 = insns.len();
    let ins = &insns[i];
    let ghost o0 = insns_view(out@);
    let mr = get_move_result(insns, i + 1);
    let mut used = call_args(ins);
    match mr {
        Some((_, to)) => used.push(to as u16),
        None => {},
    }
    assert(used@ =~= site_used(insns@, i as int));
    let empty: Vec<RegType> = Vec::new();
    let types = match types_at(regs_types, label) {
        Some(t) => t,
        None => &empty,
    };
    assert(types@ =~= types_for(regs_types@, label@));
    let ghost tv = types@;
    let ghost uv = used@;
    if staging {
        match reg_info.tmp_reserve_reg(&used, types) {
            Ok((mut saves, rest)) => {
                let ghost sv = insns_view(saves@);
                out.append(&mut saves);
                assert(insns_view(out@) =~= o0 + sv);
                Some(rest)
            },
            Err(_) => {
                out.push(ins.duplicate());
                assert(insns_view(out@) =~= o0.push(insns@[i as int]@));
                None
            },
        }
    } else {
        assert(staging_moves(rs, tv, uv, false) =~= Seq::<Instruction>::empty());
        assert(staging_moves(rs, tv, uv, true) =~= Seq::<Instruction>::empty());
        assert(insns_view(out@) =~= o0 + insns_view(staging_moves(rs, tv, uv, false)));
        let rest: Vec<Instruction> = Vec::new();
        assert(rest@ =~= staging_moves(rs, tv, uv, true));
        Some(rest)
    }
}

/// Emits the call at `i` and what takes its result unchanged, the end label of the site and
/// the moves `restores`; returns where the scan goes on.
fn finish_site(
    insns: &Vec<Instruction>,
    i: usize,
    end_label: String,
    restores: Vec<Instruction>,
    out: &mut Vec<Instruction>,
) -> (r: usize)
    requires
        i < insns@.len(),
        !insns@[i as int].spec_is_pseudo(),
    ensures
        r as int == site_end(insns@, i as int),
        i < r <= insns@.len(),
        !insns@[r - 1].spec_is_pseudo(),
        insns_view(final(out)@) == insns_view(old(out)@) + insns_view(insns@.subrange(i as int, r as int))
            + seq![InsV::Label { name: end_label@ }] + insns_view(restores@),
{
    let n0 = insns.len();
    let mut restores = restores;
    let ghost o2 = insns_view(out@);
    let mr = get_move_result(insns, i + 1);
    out.push(insns[i].duplicate());
    assert(insns_view(out@) =~= o2 + insns_view(insns@.subrange(i as int, i as int + 1)));
    let r: usize = match mr {
        Some((j, _)) => {
            let n = insns.len();
            let mut x: usize = i + 1;
            while x <= j
                invariant
                    i < x <= j + 1,
                    j < n,
                    n == insns@.len(),
                    insns_view(out@) == o2 + insns_view(insns@.subrange(i as int, x as int)),
                decreases j + 1 - x,
            {
                let ghost before = insns_view(out@);
                out.push(insns[x].duplicate());
                assert(insns_view(insns@.subrange(i as int, x as int + 1)) =~= insns_view(
                    insns@.subrange(i as int, x as int),
                ).push(insns@[x as int]@));
                assert(insns_view(out@) =~= before.push(insns@[x as int]@));
                x += 1;
            }
            j + 1
        },
        None => i + 1,
    };
    let ghost o3 = insns_view(out@);
    let ghost endv = end_label@;
    out.push(Instruction::Label { name: end_label });
    let ghost rv = insns_view(restores@);
    let ghost o4 = insns_view(out@);
    out.append(&mut restores);
    assert(o4 =~= o3.push(InsV::Label { name: endv }));
    assert(insns_view(out@) =~= o4 + rv);
    assert(insns_view(out@) =~= o2 + insns_view(insns@.subrange(i as int, r as int)) + seq![
        InsV::Label { name: endv },
    ] + rv);
    r
}

/// Rewrites the recorded call site at `i`, right after the call-site label `label`: borrows
/// the registers it needs, then emits the saves, the guarded blocks, the call and what takes
/// its result, the end label and the restores. When the registers cannot be borrowed, the call
/// is copied alone. Returns where the scan goes on.
#[verifier::rlimit(100)]
fn patch_site(
    insns: &Vec<Instruction>,
    i: usize,
    kind: ReflectionKind,
    label: &String,
    rs: u16,
    staging: bool,
    runtime_data: &RuntimeData,
    caller: &IdMethod,
    reg_info: &mut RegistersInfo,
    tester_methods_class: &DexType,
    tester_methods: &mut Vec<TesterEntry>,
    regs_types: &Vec<(String, Vec<RegType>)>,
    limit: u16,
    out: &mut Vec<Instruction>,
) -> (r: usize)
    requires
        i < insns@.len(),
        reflection_kind(insns@[i as int]@) == Some(kind),
        pending_label(insns@, i as int) == Some(label@),
        site_recorded(*runtime_data, caller@, label@, kind),
        staging == (rs > 12),
        rs + 5 < u16::MAX,
        regs_ok(*old(reg_info), limit),
        regs_in_rewrite(*old(reg_info), rs),
        pool_unique(old(tester_methods)@),
    ensures
        pool_unique(final(tester_methods)@),
        regs_ok(*final(reg_info), limit),
        regs_in_rewrite(*final(reg_info), rs),
        pool_extends(old(tester_methods)@, final(tester_methods)@),
        i < r <= insns@.len(),
        !insns@[r - 1].spec_is_pseudo(),
        insns_view(final(out)@).len() >= insns_view(old(out)@).len(),
        insns_view(final(out)@).take(insns_view(old(out)@).len() as int) == insns_view(old(out)@),
        ({
            let types = types_for(regs_types@, label@);
            let used = site_used(insns@, i as int);
            &&& staging_ok(rs, types, used) ==> r == site_end(insns@, i as int) && exists|w: nat|
                #[trigger] patched_site(
                    insns@,
                    *runtime_data,
                    caller@,
                    rs,
                    regs_types@,
                    limit,
                    final(tester_methods)@,
                    i as int,
                    r as int,
                    insns_view(final(out)@).skip(insns_view(old(out)@).len() as int),
                    w,
                ) && final(reg_info).nb_arg_reg as nat == max_nat(old(reg_info).nb_arg_reg as nat, w)
            &&& !staging_ok(rs, types, used) ==> r == i + 1 && insns_view(final(out)@) == insns_view(
                old(out)@,
            ).push(insns@[i as int]@) && *final(reg_info) == *old(reg_info) && final(tester_methods)@
                == old(tester_methods)@
        }),
{
    let n0 = insns.len();
    let ghost o0 = insns_view(out@);
    let ghost tv = types_for(regs_types@, label@);
    let ghost uv = site_used(insns@, i as int);
    let restores = match stage_site(insns, i, label, rs, staging, reg_info, regs_types, limit, out) {
        Some(rest) => rest,
        None => {
            return i + 1;
        },
    };
    let ghost o1 = insns_view(out@);
    let ghost ri_s = *reg_info;
    let ins = &insns[i];
    let args = call_args(ins);
    let mr = get_move_result(insns, i + 1);
    let mrv = match mr {
        Some((_, to)) => Some(to),
        None => None,
    };
    assert(mrv == site_mr(insns@, i as int));
    let end_label = end_label_for(kind, label);
    let ghost endv = end_label@;
    emit_site_blocks(
        kind,
        &args,
        caller,
        label,
        &end_label,
        mrv,
        runtime_data,
        reg_info,
        tester_methods_class,
        tester_methods,
        out,
        limit,
    );
    let ghost (bs, ix) = choose|bs: Seq<Seq<InsV>>, ix: Seq<int>|
        #[trigger] site_blocks_ok(
            kind,
            *runtime_data,
            caller@,
            label@,
            args@,
            ri_s,
            limit,
            endv,
            mrv,
            tester_methods@,
            bs,
            ix,
        ) && insns_view(out@) == o1 + bs.flatten() && reg_info.nb_arg_reg as nat == max_nat(
            ri_s.nb_arg_reg as nat,
            site_window(kind, *runtime_data, caller@, label@, ix),
        );
    let ghost o2 = insns_view(out@);
    let ghost pool_f = tester_methods@;
    let ghost w = site_window(kind, *runtime_data, caller@, label@, ix);
    let r = finish_site(insns, i, end_label, restores, out);
    proof {
        let call_v = insns_view(insns@.subrange(i as int, r as int));
        let seg = site_layout(
            insns_view(staging_moves(rs, tv, uv, false)),
            bs.flatten(),
            call_v,
            endv,
            insns_view(staging_moves(rs, tv, uv, true)),
        );
        assert(insns_view(out@) =~= o0 + seg);
        assert(insns_view(out@).skip(o0.len() as int) =~= seg);
        assert(insns_view(out@).take(o0.len() as int) =~= o0);
        assert(args@ == insns@[i as int]->Invoke_args@);
        assert(endv == end_label_of(kind, label@));
        lemma_patched_site(
            insns@,
            *runtime_data,
            caller@,
            rs,
            regs_types@,
            limit,
            tester_methods@,
            i as int,
            r as int,
            seg,
            w,
            pool_f,
            ri_s,
            bs,
            ix,
        );
    }
    r
}

/// Rewrites the reflective call sites of `meth` that the trace recorded. Each labelled call to
/// `Method.invoke`, `Class.newInstance` or `Constructor.newInstance` with recorded targets
/// becomes: the moves that save borrowed registers, one guarded direct call per target, the
/// original call as the fallback, its `move-result`, the end label, and the moves that
/// restore the borrowed registers. A site whose registers cannot be borrowed, or that nothing
/// was recorded for, is left as it is. The scratch registers and the argument window are
/// added above the method's registers, so the method starts with moves that bring the
/// parameters from their new registers back to the ones the code reads. `regs_types` gives,
/// for each call-site label, the types of the registers there.
#[verifier::rlimit(100)]
pub fn transform_method(
    meth: &mut Method,
    runtime_data: &RuntimeData,
    tester_methods_class: &DexType,
    tester_methods: &mut Vec<TesterEntry>,
    regs_types: &Vec<(String, Vec<RegType>)>,
) -> (r: Result<(), PatchError>)
    requires
        pool_unique(old(tester_methods)@),
    ensures
        pool_unique(final(tester_methods)@),
        pool_extends(old(tester_methods)@, final(tester_methods)@),
        old(meth).code is None <==> r == Err::<(), PatchError>(PatchError::MissingCode),
        old(meth).code matches Some(c) ==> (r is Ok <==> rewritable(
            c.registers_size,
            c.ins_size,
            old(meth).descriptor@.params.len(),
        )),
        r is Err ==> *final(meth) == *old(meth) && final(tester_methods)@ == old(tester_methods)@,
        r is Ok ==> ({
            let c0 = old(meth).code->0;
            let c1 = final(meth).code->0;
            let added = c1.registers_size - c0.registers_size;
            let pm = param_moves(
                old(meth).is_static,
                old(meth).descriptor@.params,
                c0.registers_size - c0.ins_size,
                added,
            );
            &&& old(meth).code is Some && final(meth).code is Some
            &&& final(meth).descriptor == old(meth).descriptor
            &&& final(meth).is_static == old(meth).is_static
            &&& final(meth).is_final == old(meth).is_final
            &&& c1.ins_size == c0.ins_size
            &&& insns_view(c1.insns@).take(pm.len() as int) == pm
            &&& exists|segs: Seq<Seq<InsV>>, cuts: Seq<int>, ws: Seq<nat>|
                #[trigger] body_cut(
                    c0.insns@,
                    *runtime_data,
                    old(meth).descriptor@,
                    c0.registers_size,
                    regs_types@,
                    arg_limit(c0.registers_size, c0.ins_size, old(meth).descriptor@.params.len()),
                    final(tester_methods)@,
                    segs,
                    cuts,
                    ws,
                    c0.insns@.len() as int,
                ) && insns_view(c1.insns@).skip(pm.len() as int) == segs.flatten() && added == 4
                    + seq_max(ws)
            &&& no_site_recorded(*runtime_data, old(meth).descriptor@, c0.insns@) ==> {
                &&& added == 4
                &&& insns_view(c1.insns@).skip(pm.len() as int) == insns_view(c0.insns@)
                &&& final(tester_methods)@ == old(tester_methods)@
            }
        }),
{
    let code = match &meth.code {
        Some(c) => c,
        None => {
            return Err(PatchError::MissingCode);
        },
    };
    let rs = code.registers_size;
    let nb_params = meth.descriptor.params.len();
    if code.ins_size > rs || nb_params > u16::MAX as usize || rs >= u16::MAX - 5 || rs as usize + 5
        + 2 * nb_params >= u16::MAX as usize + code.ins_size as usize {
        return Err(PatchError::RegisterOverflow);
    }
    // Above `limit`, the argument window would push the parameter moves out of range.
    let limit: u16 = if 2 * nb_params >= code.ins_size as usize {
        (u16::MAX as usize - (2 * nb_params - code.ins_size as usize)) as u16
    } else {
        u16::MAX
    };
    assert(limit == arg_limit(rs, code.ins_size, meth.descriptor@.params.len()));
    let mut reg_info = RegistersInfo::default();
    if rs < 15 {
        reg_info.array_val = rs as u8;
    } else {
        reg_info.array_val_save = Some(rs);
    }
    if rs + 2 <= 15 {
        reg_info.array_index = (rs + 2) as u8;
    } else {
        reg_info.array_index_save = Some(rs + 2);
    }
    if rs + 3 <= 15 {
        reg_info.array = (rs + 3) as u8;
    } else {
        reg_info.array_save = Some(rs + 3);
    }
    reg_info.first_arg = rs + 4;
    assert(reg_info == initial_regs(rs));
    let staging = reg_info.array_val_save.is_some() || reg_info.array_index_save.is_some()
        || reg_info.array_save.is_some();
    assert(staging == (rs > 12));
    let insns = &code.insns;
    let ghost m = meth.descriptor@;
    let ghost no_site = no_site_recorded(*runtime_data, m, insns@);
    let mut out: Vec<Instruction> = Vec::new();
    let mut current: Option<String> = None;
    let ghost mut segs: Seq<Seq<InsV>> = seq![];
    let ghost mut cuts: Seq<int> = seq![0int];
    let ghost mut ws: Seq<nat> = seq![];
    let ghost rd = *runtime_data;
    let ghost rt = regs_types@;
    assert(segs.flatten() =~= Seq::<InsV>::empty());
    let mut i: usize = 0;
    while i < insns.len()
        invariant
            i <= insns@.len(),
            rd == *runtime_data,
            rt == regs_types@,
            staging == (rs > 12),
            rs + 5 < u16::MAX,
            body_cut(insns@, rd, m, rs, rt, limit, tester_methods@, segs, cuts, ws, i as int),
            insns_view(out@) == segs.flatten(),
            reg_info.nb_arg_reg as nat == seq_max(ws),
            match current {
                Some(l) => pending_label(insns@, i as int) == Some(l@),
                None => pending_label(insns@, i as int) is None,
            },
            m == meth.descriptor@,
            no_site == no_site_recorded(*runtime_data, m, insns@),
            pool_unique(tester_methods@),
            pool_extends(old(tester_methods)@, tester_methods@),
            regs_ok(reg_info, limit),
            regs_in_rewrite(reg_info, rs),
            limit as int + 2 * meth.descriptor@.params.len() <= u16::MAX + code.ins_size,
            current matches Some(l) ==> exists|j: int|
                0 <= j < i && #[trigger] insns@[j] is Label && insns@[j]->Label_name@ == l@,
            no_site ==> reg_info.nb_arg_reg == 0,
            no_site ==> tester_methods@ == old(tester_methods)@,
            no_site ==> insns_view(out@) == insns_view(insns@.take(i as int)),
        decreases insns@.len() - i,
    {
        let ins = &insns[i];
        proof {
            assert(insns@.take(i as int + 1) =~= insns@.take(i as int).push(insns@[i as int]));
        }
        let kind = reflection_kind_of(ins);
        let mut handled = false;
        if let Some(k) = kind {
            if let Some(label) = &current {
                if recorded(runtime_data, &meth.descriptor, label, k) {
                    proof {
                        if no_site {
                            let j = choose|j: int|
                                0 <= j < i && #[trigger] insns@[j] is Label
                                    && insns@[j]->Label_name@ == label@;
                            assert(!site_recorded(*runtime_data, m, insns@[j]->Label_name@, k));
                        }
                    }
                    handled = true;
                    let ghost pool0 = tester_methods@;
                    let ghost o0 = insns_view(out@);
                    let ghost i0 = i as int;
                    let ghost nb0 = reg_info.nb_arg_reg;
                    let next = patch_site(
                        insns,
                        i,
                        k,
                        label,
                        rs,
                        staging,
                        runtime_data,
                        &meth.descriptor,
                        &mut reg_info,
                        tester_methods_class,
                        tester_methods,
                        regs_types,
                        limit,
                        &mut out,
                    );
                    proof {
                        let seg = insns_view(out@).skip(o0.len() as int);
                        assert(insns_view(out@) =~= o0 + seg);
                        assert(recorded_site(insns@, rd, m, i0));
                        lemma_body_cut_grow(insns@, rd, m, rs, rt, limit, pool0, tester_methods@, segs, cuts, ws, i0);
                        let types = types_for(rt, label@);
                        let used = site_used(insns@, i0);
                        if staging_ok(rs, types, used) {
                            let w = choose|w: nat| #[trigger] patched_site(
                                insns@,
                                rd,
                                m,
                                rs,
                                rt,
                                limit,
                                tester_methods@,
                                i0,
                                next as int,
                                seg,
                                w,
                            ) && reg_info.nb_arg_reg as nat == max_nat(nb0 as nat, w);
                            lemma_push_segment(insns@, rd, m, rs, rt, limit, tester_methods@, segs, cuts, ws, i0, next as int, seg, w);
                            segs = segs.push(seg);
                            cuts = cuts.push(next as int);
                            ws = ws.push(w);
                        } else {
                            assert(seg =~= seq![insns@[i0]@]);
                            assert(body_segment(insns@, rd, m, rs, rt, limit, tester_methods@, i0, next as int, seg, 0));
                            lemma_push_segment(insns@, rd, m, rs, rt, limit, tester_methods@, segs, cuts, ws, i0, next as int, seg, 0);
                            segs = segs.push(seg);
                            cuts = cuts.push(next as int);
                            ws = ws.push(0);
                        }
                        assert(!(insns@[next - 1] is Label));
                    }
                    i = next;
                    current = None;
                }
            }
        }
        if !handled {
            let ghost before = insns_view(out@);
            match ins {
                Instruction::Label { name } => {
                    if has_site_prefix(name) {
                        current = Some(name.clone());
                    }
                },
                _ => {
                    if !ins.is_pseudo() {
                        current = None;
                    }
                },
            }
            out.push(ins.duplicate());
            proof {
                let seg = seq![insns@[i as int]@];
                assert(insns_view(out@) =~= before + seg);
                assert(body_segment(insns@, rd, m, rs, rt, limit, tester_methods@, i as int, i as int + 1, seg, 0));
                lemma_push_segment(insns@, rd, m, rs, rt, limit, tester_methods@, segs, cuts, ws, i as int, i as int + 1, seg, 0);
                segs = segs.push(seg);
                cuts = cuts.push(i as int + 1);
                ws = ws.push(0);
                if no_site {
                    assert(insns_view(out@) =~= before.push(insns@[i as int]@));
                    assert(insns_view(insns@.take(i as int + 1)) =~= insns_view(
                        insns@.take(i as int),
                    ).push(insns@[i as int]@));
                }
            }
            i += 1;
        }
    }
    proof {
        if no_site {
            assert(insns@.take(i as int) =~= insns@);
        }
    }
    let added = reg_info.get_nb_added_reg();
    let base = rs - code.ins_size;
    let mut prologue = match param_moves_exec(meth.is_static, &meth.descriptor.params, base, added) {
        Some(p) => p,
        None => {
            assert(false);
            return Err(PatchError::RegisterOverflow);
        },
    };
    let ghost pm = insns_view(prologue@);
    let ghost body = insns_view(out@);
    assert(body_cut(insns@, rd, m, rs, rt, limit, tester_methods@, segs, cuts, ws, insns@.len() as int));
    let ins_size = code.ins_size;
    prologue.append(&mut out);
    assert(insns_view(prologue@) =~= pm + body);
    assert(insns_view(prologue@).take(pm.len() as int) =~= pm);
    assert(insns_view(prologue@).skip(pm.len() as int) =~= body);
    meth.code = Some(Code { registers_size: rs + added, ins_size, insns: prologue });
    Ok(())
}

/// Code without labels and jumps: control enters at its start and leaves at its end.
pub open spec fn straight(s: Seq<InsV>) -> bool {
    forall|k: int| 0 <= k < s.len() ==> !(#[trigger] s[k] is Label || s[k] is Goto || s[k] is If)
}

proof fn lemma_straight_concat(a: Seq<InsV>, b: Seq<InsV>)
    requires
        straight(a),
        straight(b),
    ensures
        straight(a + b),
{
    assert forall|k: int| 0 <= k < (a + b).len() implies !(#[trigger] (a + b)[k] is Label || (a
        + b)[k] is Goto || (a + b)[k] is If) by {
        if k < a.len() {
            assert((a + b)[k] == a[k]);
        } else {
            assert((a + b)[k] == b[k - a.len()]);
        }
    }
}

proof fn lemma_unpack_straight(ps: Seq<TyV>, arr: u8, first: int, ri: RegistersInfo)
    ensures
        straight(unpack_all(ps, arr, first, ri)),
    decreases ps.len(),
{
    if ps.len() > 0 {
        lemma_unpack_straight(ps.drop_last(), arr, first, ri);
        let one = unpack_one(
            ps.last(),
            ps.len() - 1,
            arr,
            (first + params_width(ps.drop_last())) as u16,
            ri,
        );
        assert(straight(one));
        lemma_straight_concat(unpack_all(ps.drop_last(), arr, first, ri), one);
    }
}

/// A guarded block hands control on in order. Its first instruction calls the tester, its
/// third branches to the block's own last instruction, the label `abort`, when the tester
/// says no, so that control falls through to whatever follows the block: the guard of the
/// next recorded target, or the original reflective call after the last one. Between the
/// guard and the jump to `end_label` that ends the direct-call body there is no label and no
/// jump, so the body runs exactly when the guard passes, and then leaves the call site.
pub proof fn lemma_guard_chain(
    d: ReflectionInvokeData,
    method_obj: u16,
    obj_inst: u16,
    arg_arr: u16,
    ri: RegistersInfo,
    end_label: Seq<char>,
    abort: Seq<char>,
    move_result: Option<u8>,
    tester: MethodV,
    rest: Seq<InsV>,
)
    ensures
        ({
            let b = invoke_block(d, method_obj, obj_inst, arg_arr, ri, end_label, abort, move_result, tester);
            let site = b + rest;
            &&& b.len() >= 5
            &&& site[0] == (InsV::Invoke { kind: InvokeKind::Static, method: tester, args: seq![method_obj] })
            &&& site[2] == if_eqz(ri.array_val, abort)
            &&& straight(b.subrange(3, b.len() - 2))
            &&& site[b.len() - 2] == (InsV::Goto { label: end_label })
            &&& site[b.len() - 1] == (InsV::Label { name: abort })
            &&& forall|k: int| 0 <= k < rest.len() ==> site[b.len() + k] == rest[k]
        }),
{
    let b = invoke_block(d, method_obj, obj_inst, arg_arr, ri, end_label, abort, move_result, tester);
    let callee = static_target(d.method, d.renamed_method);
    let g = guard(tester, method_obj, ri, abort);
    let this_part: Seq<InsV> = if d.is_static {
        seq![]
    } else {
        seq![
            InsV::MoveObject { from: obj_inst, to: ri.array_val as u16 },
            InsV::CheckCast { reg: ri.array_val, lit: callee.class_ },
            InsV::MoveObject { from: ri.array_val as u16, to: ri.first_arg },
        ]
    };
    let first = (ri.first_arg + if d.is_static {
        0int
    } else {
        1int
    }) as u16;
    let args = args_from_array(callee.params, arg_arr, first, ri);
    let call = seq![
        InsV::Invoke {
            kind: if d.is_static {
                InvokeKind::Static
            } else {
                InvokeKind::Virtual
            },
            method: callee,
            args: reg_range(ri.first_arg, window(callee, d.is_static)),
        },
    ];
    let rebox = rebox_result(callee.ret, move_result, ri);
    let tail = seq![InsV::Goto { label: end_label }, InsV::Label { name: abort }];
    let body = this_part + args + call + rebox;
    assert(b =~= g + body + tail);
    lemma_unpack_straight(callee.params, if arg_arr <= 15 {
        arg_arr as u8
    } else {
        ri.array
    }, first as int, ri);
    assert(straight(args)) by {
        if arg_arr > 15 {
            let mv1 = seq![InsV::MoveObject { from: arg_arr, to: ri.array as u16 }];
            let mv2 = seq![InsV::MoveObject { from: ri.array as u16, to: arg_arr }];
            assert(straight(mv1));
            assert(straight(mv2));
            lemma_straight_concat(mv1, unpack_all(callee.params, ri.array, first as int, ri));
            lemma_straight_concat(mv1 + unpack_all(callee.params, ri.array, first as int, ri), mv2);
        }
    }
    assert(straight(this_part));
    assert(straight(call));
    assert(straight(rebox));
    lemma_straight_concat(this_part, args);
    lemma_straight_concat(this_part + args, call);
    lemma_straight_concat(this_part + args + call, rebox);
    assert(b.subrange(3, b.len() - 2) =~= body);
}

} // verus!
