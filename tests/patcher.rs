use patcher::code_analysis::{CfgError, CFG};
use patcher::code_loading_patcher::{ClassLoader, CodePatchingStrategy, LoaderError};
use patcher::dex_types::{
    class_new_instance, get_obj_of_scalar, get_obj_to_scalar_method, get_scalar_to_obj_method,
    method_invoke, DexType, IdMethod, NotScalar,
};
use patcher::get_apk::{AndrozooKey, ApkLocation};
use patcher::instructions::{IfTest, Instruction, InvokeKind};
use patcher::labeling;
use patcher::reflection_patcher::{
    gen_tester_method, get_args_from_obj_arr, get_class_new_inst_block, transform_method, Code,
    Method, PatchError, TesterEntry,
};
use patcher::register_manipulation::{NoUsableRegister, RegType, RegistersInfo};
use patcher::runtime_data::{
    DynamicCodeLoadingData, ReflectionClassNewInstData, ReflectionInvokeData, RuntimeData,
};

fn class(name: &str) -> DexType {
    DexType::Class { name: name.to_string(), platform: false }
}

fn platform(name: &str) -> DexType {
    DexType::Class { name: name.to_string(), platform: true }
}

fn method(cls: &str, name: &str, params: Vec<DexType>, ret: DexType) -> IdMethod {
    IdMethod { class_: class(cls), name: name.to_string(), params, ret }
}

fn label(name: &str) -> Instruction {
    Instruction::Label { name: name.to_string() }
}

fn goto(name: &str) -> Instruction {
    Instruction::Goto { label: name.to_string() }
}

fn empty_data() -> RuntimeData {
    RuntimeData {
        invoke_data: vec![],
        class_new_inst_data: vec![],
        cnstr_new_inst_data: vec![],
        dyn_code_load: vec![],
        apk_cl_id: None,
        classloaders: vec![],
        app_info: None,
    }
}

fn invoke_entry(caller: &IdMethod, target: IdMethod, addr: usize, is_static: bool) -> ReflectionInvokeData {
    ReflectionInvokeData {
        method: target,
        method_cl_id: "CL".to_string(),
        renamed_method: None,
        caller_method: caller.duplicate(),
        caller_cl_id: "MAIN".to_string(),
        renamed_caller_method: None,
        addr,
        is_static,
    }
}

fn reflective_call(args: Vec<u16>) -> Instruction {
    Instruction::Invoke { kind: InvokeKind::Virtual, method: method_invoke(), args }
}

fn is_label(i: &Instruction, name: &str) -> bool {
    matches!(i, Instruction::Label { name: n } if n == name)
}

// ----- control-flow graph -----

#[test]
fn cfg_straight_line_is_one_block() {
    let insns = vec![Instruction::Const { reg: 0, lit: 1 }, Instruction::ReturnVoid];
    let g = CFG::new(1, &insns).unwrap();
    assert_eq!(g.blocks.len(), 2);
    assert_eq!((g.blocks[1].start, g.blocks[1].end), (0, 2));
    assert_eq!(g.next_nodes[0], vec![1]);
    assert!(g.next_nodes[1].is_empty());
    assert_eq!(g.prev_nodes[1], vec![0]);
}

#[test]
fn cfg_branch_has_fallthrough_and_target() {
    let insns = vec![
        Instruction::If { test: IfTest::EqZ, a: 0, b: 0, label: "L".to_string() },
        Instruction::Const { reg: 0, lit: 1 },
        label("L"),
        Instruction::ReturnVoid,
    ];
    let g = CFG::new(1, &insns).unwrap();
    // entry, [if], [const], [L: return]
    assert_eq!(g.blocks.len(), 4);
    assert_eq!(g.next_nodes[1], vec![2, 3]);
    assert_eq!(g.next_nodes[2], vec![3]);
    assert_eq!(g.blocks[3].label.as_deref(), Some("L"));
    assert_eq!(g.prev_nodes[3], vec![1, 2]);
}

#[test]
fn cfg_every_instruction_in_exactly_one_block() {
    let insns = vec![
        label("A"),
        Instruction::Const { reg: 0, lit: 0 },
        goto("B"),
        label("B"),
        label("C"),
        Instruction::Switch { reg: 0, branches: vec![(1, "A".to_string()), (2, "C".to_string())] },
        Instruction::ReturnVoid,
    ];
    let g = CFG::new(1, &insns).unwrap();
    for i in 0..insns.len() {
        let n = g.blocks.iter().skip(1).filter(|b| b.start <= i && i < b.end).count();
        assert_eq!(n, 1);
    }
    assert_eq!(g.blocks.last().unwrap().end, insns.len());
}

#[test]
fn cfg_throwing_call_in_try_goes_to_all_handlers() {
    let insns = vec![
        Instruction::Try {
            end_label: "END".to_string(),
            handlers: vec![(platform("java/lang/Exception"), "H1".to_string())],
            default_handler: Some("H2".to_string()),
        },
        Instruction::Invoke { kind: InvokeKind::Static, method: method("a/B", "f", vec![], DexType::Void), args: vec![] },
        label("END"),
        Instruction::ReturnVoid,
        label("H1"),
        Instruction::ReturnVoid,
        label("H2"),
        Instruction::ReturnVoid,
    ];
    let g = CFG::new(1, &insns).unwrap();
    let call_block = g.blocks.iter().position(|b| b.start <= 1 && 1 < b.end).unwrap();
    let labels: Vec<Option<String>> =
        g.next_nodes[call_block].iter().map(|j| g.blocks[*j].label.clone()).collect();
    assert_eq!(labels, vec![Some("END".to_string()), Some("H1".to_string()), Some("H2".to_string())]);
}

#[test]
fn cfg_missing_label_is_reported() {
    let insns = vec![goto("NOWHERE")];
    match CFG::new(1, &insns) {
        Err(CfgError::MissingLabel { label, block }) => {
            assert_eq!(label, "NOWHERE");
            assert_eq!(block, 1);
        }
        Ok(_) => panic!("expected an error"),
    }
}

#[test]
fn cfg_empty_method() {
    let g = CFG::new(0, &vec![]).unwrap();
    assert_eq!(g.blocks.len(), 1);
    assert!(g.next_nodes[0].is_empty());
}

// ----- scratch registers -----

#[test]
fn nb_added_reg_counts_scratch_and_window() {
    let mut ri = RegistersInfo::default();
    ri.nb_arg_reg = 3;
    assert_eq!(ri.get_nb_added_reg(), 7);
}

#[test]
fn reserve_prefers_object_register_over_any() {
    let mut ri = RegistersInfo::default();
    ri.array_save = Some(40);
    let mut types = vec![RegType::SimpleScalar; 16];
    types[3] = RegType::Object;
    types[7] = RegType::Any;
    let (save, restore) = ri.tmp_reserve_reg(&vec![0, 1, 2], &types).unwrap();
    assert_eq!(ri.array, 3);
    assert!(matches!(save.as_slice(), [Instruction::MoveObject { from: 3, to: 40 }]));
    assert!(matches!(restore.as_slice(), [Instruction::MoveObject { from: 40, to: 3 }]));
}

#[test]
fn reserve_wide_pair_and_single() {
    let mut ri = RegistersInfo::default();
    ri.array_val_save = Some(30);
    ri.array_index_save = Some(32);
    let mut types = vec![RegType::Object; 16];
    types[4] = RegType::FirstWideScalar;
    types[5] = RegType::SecondWideScalar;
    types[9] = RegType::SimpleScalar;
    let (save, restore) = ri.tmp_reserve_reg(&vec![], &types).unwrap();
    assert_eq!(ri.array_val, 4);
    assert_eq!(ri.array_index, 9);
    assert!(matches!(
        save.as_slice(),
        [Instruction::MoveWide { from: 4, to: 30 }, Instruction::Move { from: 9, to: 32 }]
    ));
    assert!(matches!(
        restore.as_slice(),
        [Instruction::MoveWide { from: 30, to: 4 }, Instruction::Move { from: 32, to: 9 }]
    ));
}

#[test]
fn reserve_fails_when_every_register_is_used() {
    let mut ri = RegistersInfo::default();
    ri.array_index_save = Some(20);
    let types = vec![RegType::SimpleScalar; 3];
    assert_eq!(ri.tmp_reserve_reg(&vec![0, 1, 2], &types).unwrap_err(), NoUsableRegister);
}

#[test]
fn reserve_undefined_register_needs_no_move() {
    let mut ri = RegistersInfo::default();
    ri.array_save = Some(20);
    let types = vec![RegType::Undefined; 4];
    let (save, restore) = ri.tmp_reserve_reg(&vec![0], &types).unwrap();
    assert_eq!(ri.array, 1);
    assert!(save.is_empty() && restore.is_empty());
}

// ----- boxing tables -----

#[test]
fn box_unbox_methods_round_trip_for_every_scalar() {
    let scalars = vec![
        (DexType::Boolean, "java/lang/Boolean", "booleanValue"),
        (DexType::Byte, "java/lang/Byte", "byteValue"),
        (DexType::Short, "java/lang/Short", "shortValue"),
        (DexType::Char, "java/lang/Character", "charValue"),
        (DexType::Int, "java/lang/Integer", "intValue"),
        (DexType::Long, "java/lang/Long", "longValue"),
        (DexType::Float, "java/lang/Float", "floatValue"),
        (DexType::Double, "java/lang/Double", "doubleValue"),
    ];
    for (t, boxed, unbox) in scalars {
        let b = get_scalar_to_obj_method(&t).unwrap();
        let u = get_obj_to_scalar_method(&t).unwrap();
        let c = get_obj_of_scalar(&t).unwrap();
        assert!(c.same(&platform(boxed)));
        assert_eq!(b.name, "valueOf");
        assert!(b.params.len() == 1 && b.params[0].same(&t));
        assert!(b.ret.same(&u.class_));
        assert_eq!(u.name, unbox);
        assert!(u.params.is_empty() && u.ret.same(&t));
    }
}

#[test]
fn non_scalar_has_no_box() {
    assert_eq!(get_obj_of_scalar(&class("a/B")).unwrap_err(), NotScalar);
    assert!(get_scalar_to_obj_method(&DexType::Void).is_err());
}

// ----- argument unpacking -----

#[test]
fn args_unpacked_with_wide_taking_two_registers() {
    let mut ri = RegistersInfo::default();
    ri.array_val = 5;
    ri.array_index = 7;
    ri.array = 8;
    let params = vec![DexType::Long, class("a/B"), DexType::Int];
    let insns = get_args_from_obj_arr(&params, 3, 20, &ri);
    // 2 + 4 for the long, 2 + 2 for the object, 2 + 4 for the int.
    assert_eq!(insns.len(), 16);
    assert!(matches!(insns[5], Instruction::MoveWide { from: 5, to: 20 }));
    assert!(matches!(insns[9], Instruction::MoveObject { from: 5, to: 22 }));
    assert!(matches!(insns[15], Instruction::Move { from: 5, to: 23 }));
}

#[test]
fn args_array_in_high_register_is_moved_and_restored() {
    let mut ri = RegistersInfo::default();
    ri.array = 8;
    let insns = get_args_from_obj_arr(&vec![], 300, 20, &ri);
    assert!(matches!(
        insns.as_slice(),
        [Instruction::MoveObject { from: 300, to: 8 }, Instruction::MoveObject { from: 8, to: 300 }]
    ));
}

// ----- tester methods -----

#[test]
fn tester_checks_and_returns_boolean() {
    let target = method("a/B", "f", vec![DexType::Int], DexType::Void);
    let t = gen_tester_method(&class("theseus/T"), &target, false, "check_is_0".to_string());
    assert!(t.is_static && t.is_final);
    assert_eq!(t.descriptor.name, "check_is_0");
    assert!(t.descriptor.ret.same(&DexType::Boolean));
    let code = t.code.unwrap();
    assert_eq!((code.registers_size, code.ins_size), (10, 1));
    assert!(code.insns.iter().any(|i| matches!(i, Instruction::ConstString { lit, .. } if lit == "f")));
    assert!(matches!(code.insns.last(), Some(Instruction::Return { reg: 4 })));
}

// ----- call-site blocks -----

#[test]
fn class_new_instance_needs_zero_arg_constructor() {
    let caller = method("a/Main", "run", vec![], DexType::Void);
    let data = ReflectionClassNewInstData {
        constructor: method("a/B", "<init>", vec![DexType::Int], DexType::Void),
        constructor_cl_id: "CL".to_string(),
        renamed_constructor: None,
        caller_method: caller,
        caller_cl_id: "MAIN".to_string(),
        renamed_caller_method: None,
        addr: 4,
    };
    let ri = RegistersInfo::default();
    let r = get_class_new_inst_block(&data, &vec![1], &ri, &"end".to_string(), &"abort".to_string(), None);
    assert_eq!(r.unwrap_err(), PatchError::NotZeroArgConstructor);
    let r = get_class_new_inst_block(&data, &vec![1, 2], &ri, &"end".to_string(), &"abort".to_string(), None);
    assert_eq!(r.unwrap_err(), PatchError::WrongArgCount);
}

#[test]
fn class_new_instance_block_compares_descriptors() {
    let caller = method("a/Main", "run", vec![], DexType::Void);
    let data = ReflectionClassNewInstData {
        constructor: method("a/B", "<init>", vec![], DexType::Void),
        constructor_cl_id: "CL".to_string(),
        renamed_constructor: None,
        caller_method: caller,
        caller_cl_id: "MAIN".to_string(),
        renamed_caller_method: None,
        addr: 4,
    };
    let mut ri = RegistersInfo::default();
    ri.array_index = 6;
    let b = get_class_new_inst_block(&data, &vec![1], &ri, &"end".to_string(), &"abort".to_string(), Some(2)).unwrap();
    assert_eq!(b.len(), 12);
    assert!(matches!(&b[7], Instruction::If { test: IfTest::EqZ, a: 6, label, .. } if label == "abort"));
    assert!(matches!(&b[8], Instruction::NewInstance { reg: 2, .. }));
    assert!(is_label(&b[11], "abort"));
}

// ----- method rewriting -----

fn simple_method(rs: u16, ins: u16, insns: Vec<Instruction>) -> Method {
    Method {
        descriptor: method("a/Main", "run", vec![], DexType::Void),
        is_static: false,
        is_final: false,
        code: Some(Code { registers_size: rs, ins_size: ins, insns }),
    }
}

#[test]
fn rewrite_static_target_call_site() {
    let mut m = simple_method(2, 1, vec![
        label("THESEUS_ADDR_00000010"),
        reflective_call(vec![0, 1, 0]),
        Instruction::ReturnVoid,
    ]);
    let mut data = empty_data();
    data.invoke_data.push(invoke_entry(&m.descriptor, method("a/B", "f", vec![], DexType::Void), 0x10, true));
    let mut pool: Vec<TesterEntry> = vec![];
    transform_method(&mut m, &data, &class("theseus/T"), &mut pool, &vec![]).unwrap();
    let code = m.code.unwrap();
    let insns = &code.insns;
    assert_eq!(pool.len(), 1);
    let pos = |p: &dyn Fn(&Instruction) -> bool| insns.iter().position(|i| p(i)).unwrap();
    let tester = pos(&|i| matches!(i, Instruction::Invoke { kind: InvokeKind::Static, method, .. } if method.name == "check_is_B_f_0"));
    let branch = pos(&|i| matches!(i, Instruction::If { test: IfTest::EqZ, .. }));
    let direct = pos(&|i| matches!(i, Instruction::Invoke { kind: InvokeKind::Static, method, .. } if method.name == "f"));
    let jump = pos(&|i| matches!(i, Instruction::Goto { label } if label == "end_reflection_call_at_THESEUS_ADDR_00000010"));
    let abort = pos(&|i| matches!(i, Instruction::Label { name } if name.starts_with("end_reflection_call_at_THESEUS_ADDR_00000010_abort")));
    let original = pos(&|i| matches!(i, Instruction::Invoke { kind: InvokeKind::Virtual, method, .. } if method.name == "invoke"));
    let end = pos(&|i| is_label(i, "end_reflection_call_at_THESEUS_ADDR_00000010"));
    assert!(tester < branch && branch < direct && direct < jump && jump < abort && abort < original && original < end);
    if let Instruction::If { label, .. } = &insns[branch] {
        assert!(is_label(&insns[abort], label));
    }
    // four scratch registers, no argument.
    assert_eq!(code.registers_size, 6);
    assert!(matches!(insns[0], Instruction::MoveObject { from: 5, to: 1 }));
}

#[test]
fn rewrite_without_matching_trace_keeps_body() {
    let body = vec![
        label("THESEUS_ADDR_00000010"),
        reflective_call(vec![0, 1, 2]),
        Instruction::MoveResultObject { to: 0 },
        Instruction::ReturnObject { reg: 0 },
    ];
    let mut m = Method {
        descriptor: method("a/Main", "run", vec![DexType::Long, class("a/C")], DexType::Void),
        is_static: false,
        is_final: false,
        code: Some(Code { registers_size: 6, ins_size: 4, insns: body }),
    };
    let mut data = empty_data();
    let other = method("a/Other", "g", vec![], DexType::Void);
    data.invoke_data.push(invoke_entry(&other, method("a/B", "f", vec![], DexType::Void), 0x10, true));
    let mut pool: Vec<TesterEntry> = vec![];
    transform_method(&mut m, &data, &class("theseus/T"), &mut pool, &vec![]).unwrap();
    let code = m.code.unwrap();
    assert_eq!(code.registers_size, 10);
    assert!(pool.is_empty());
    assert!(matches!(code.insns[0], Instruction::MoveObject { from: 6, to: 2 }));
    assert!(matches!(code.insns[1], Instruction::MoveWide { from: 7, to: 3 }));
    assert!(matches!(code.insns[2], Instruction::MoveObject { from: 9, to: 5 }));
    assert_eq!(code.insns.len(), 7);
    assert!(is_label(&code.insns[3], "THESEUS_ADDR_00000010"));
    assert!(matches!(code.insns[5], Instruction::MoveResultObject { to: 0 }));
}

#[test]
fn guards_tried_in_trace_order_then_original_call() {
    let mut m = simple_method(3, 1, vec![
        label("THESEUS_ADDR_00000020"),
        reflective_call(vec![0, 1, 2]),
        Instruction::MoveResultObject { to: 0 },
        Instruction::ReturnObject { reg: 0 },
    ]);
    let mut data = empty_data();
    data.invoke_data.push(invoke_entry(&m.descriptor, method("a/B", "f", vec![], class("a/R")), 0x20, false));
    data.invoke_data.push(invoke_entry(&m.descriptor, method("a/C", "g", vec![DexType::Int], DexType::Int), 0x20, true));
    let mut pool: Vec<TesterEntry> = vec![];
    transform_method(&mut m, &data, &class("theseus/T"), &mut pool, &vec![]).unwrap();
    let insns = m.code.unwrap().insns;
    assert_eq!(pool.len(), 2);
    let guards: Vec<usize> = insns.iter().enumerate()
        .filter(|(_, i)| matches!(i, Instruction::If { test: IfTest::EqZ, .. }) ).map(|(k, _)| k).collect();
    assert_eq!(guards.len(), 2);
    let target_of = |k: usize| match &insns[k] { Instruction::If { label, .. } => label.clone(), _ => unreachable!() };
    let label_pos = |l: &str| insns.iter().position(|i| is_label(i, l)).unwrap();
    // The first guard fails to the label right before the second guard's tester call.
    let first_abort = label_pos(&target_of(guards[0]));
    assert!(first_abort < guards[1]);
    assert!(matches!(&insns[first_abort + 1], Instruction::Invoke { kind: InvokeKind::Static, .. }));
    // The second guard fails to the label right before the original call.
    let second_abort = label_pos(&target_of(guards[1]));
    assert!(matches!(&insns[second_abort + 1], Instruction::Invoke { kind: InvokeKind::Virtual, method, .. } if method.name == "invoke"));
    // The int result of the static call is boxed back.
    assert!(insns.iter().any(|i| matches!(i, Instruction::Invoke { method, .. } if method.name == "valueOf")));
}

#[test]
fn tester_shared_between_sites() {
    let mut m = simple_method(3, 1, vec![
        label("THESEUS_ADDR_00000001"),
        reflective_call(vec![0, 1, 2]),
        label("THESEUS_ADDR_00000002"),
        reflective_call(vec![0, 1, 2]),
        Instruction::ReturnVoid,
    ]);
    let mut data = empty_data();
    data.invoke_data.push(invoke_entry(&m.descriptor, method("a/B", "f", vec![], DexType::Void), 1, true));
    data.invoke_data.push(invoke_entry(&m.descriptor, method("a/B", "f", vec![], DexType::Void), 2, true));
    let mut pool: Vec<TesterEntry> = vec![];
    transform_method(&mut m, &data, &class("theseus/T"), &mut pool, &vec![]).unwrap();
    assert_eq!(pool.len(), 1);
}

#[test]
fn method_without_code_is_an_error() {
    let mut m = Method { descriptor: method("a/Main", "run", vec![], DexType::Void), is_static: true, is_final: false, code: None };
    let mut pool: Vec<TesterEntry> = vec![];
    assert_eq!(transform_method(&mut m, &empty_data(), &class("theseus/T"), &mut pool, &vec![]), Err(PatchError::MissingCode));
}

#[test]
fn site_without_free_register_is_left_alone() {
    let mut m = simple_method(20, 1, vec![
        label("THESEUS_ADDR_00000010"),
        reflective_call(vec![0, 1, 2]),
        Instruction::ReturnVoid,
    ]);
    let mut data = empty_data();
    data.invoke_data.push(invoke_entry(&m.descriptor, method("a/B", "f", vec![], DexType::Void), 0x10, true));
    let mut pool: Vec<TesterEntry> = vec![];
    let types = vec![("THESEUS_ADDR_00000010".to_string(), vec![RegType::SimpleScalar; 3])];
    transform_method(&mut m, &data, &class("theseus/T"), &mut pool, &types).unwrap();
    let insns = m.code.unwrap().insns;
    assert!(!insns.iter().any(|i| matches!(i, Instruction::If { .. })));
    assert_eq!(insns.len(), 4);
}

// ----- labelling -----

#[test]
fn labeling_names_reflective_calls() {
    let m = method("a/Main", "run", vec![], DexType::Void);
    assert_eq!(labeling(&m, &reflective_call(vec![0, 1, 2]), 0x10), Some("THESEUS_ADDR_00000010".to_string()));
    let newinst = Instruction::Invoke { kind: InvokeKind::Virtual, method: class_new_instance(), args: vec![0] };
    assert_eq!(labeling(&m, &newinst, 0x1ABCDEF23), Some("THESEUS_ADDR_1ABCDEF23".to_string()));
    assert_eq!(labeling(&m, &Instruction::ReturnVoid, 4), None);
}

// ----- class loaders -----

fn load(id: &str, parent: Option<&str>, cls: &str) -> DynamicCodeLoadingData {
    DynamicCodeLoadingData {
        classloader_class: platform(cls),
        classloader: id.to_string(),
        classloader_parent: parent.map(|p| p.to_string()),
        files: vec![],
    }
}

#[test]
fn colliding_class_is_renamed_with_loader_id() {
    let main = vec!["a/Main".to_string()];
    let loads = vec![load("L1", Some("MAIN"), "dalvik/system/DexClassLoader"), load("L2", Some("MAIN"), "dalvik/system/DexClassLoader")];
    let classes = vec![vec!["com/example/Foo".to_string()], vec!["com/example/Foo".to_string()]];
    let (ls, redefined) = patcher::code_loading_patcher::model_class_loaders(&main, &None, &loads, &classes).unwrap();
    assert_eq!(ls.len(), 3);
    assert_eq!(ls[0].id, "MAIN");
    assert_eq!(ls[1].classes, vec!["com/example/Foo".to_string()]);
    assert_eq!(ls[2].classes, vec!["theseus-dedup/L2/com/example/Foo".to_string()]);
    assert_eq!(redefined, vec!["com/example/Foo".to_string()]);
}

#[test]
fn renamed_name_gets_suffix_when_taken() {
    let main = vec!["com/example/Foo".to_string(), "theseus-dedup/L1/com/example/Foo".to_string()];
    let loads = vec![load("L1", None, "dalvik/system/DexClassLoader")];
    let classes = vec![vec!["com/example/Foo".to_string()]];
    let (ls, _) = patcher::code_loading_patcher::model_class_loaders(&main, &None, &loads, &classes).unwrap();
    assert_eq!(ls[1].classes, vec!["theseus-dedup/L1-1/com/example/Foo".to_string()]);
}

#[test]
fn merged_image_has_unique_names() {
    let main = vec!["a/A".to_string(), "a/B".to_string()];
    let loads = vec![load("X", None, "c"), load("Y", None, "c"), load("Z", None, "c")];
    let classes = vec![
        vec!["a/A".to_string(), "a/C".to_string()],
        vec!["a/A".to_string(), "a/C".to_string(), "a/B".to_string()],
        vec!["theseus-dedup/Y/a/A".to_string()],
    ];
    let (ls, _) = patcher::code_loading_patcher::model_class_loaders(&main, &Some("APP".to_string()), &loads, &classes).unwrap();
    let mut all: Vec<String> = ls.iter().flat_map(|l| l.classes.clone()).collect();
    let n = all.len();
    all.sort();
    all.dedup();
    assert_eq!(all.len(), n);
    assert_eq!(ls[0].id, "APP");
}

#[test]
fn same_loader_twice_is_an_error() {
    let loads = vec![load("L", None, "c"), load("L", None, "c")];
    let classes = vec![vec![], vec![]];
    let r = patcher::code_loading_patcher::model_class_loaders(&vec![], &None, &loads, &classes);
    assert_eq!(r.unwrap_err(), LoaderError::DuplicateLoader);
}

#[test]
fn resolution_follows_delegation_order() {
    let main = vec!["a/Foo".to_string()];
    let loads = vec![
        load("PF", Some("MAIN"), "dalvik/system/PathClassLoader"),
        load("DL", Some("MAIN"), "dalvik/system/DelegateLastClassLoader"),
    ];
    let classes = vec![vec!["a/Foo".to_string()], vec!["a/Foo".to_string()]];
    let (ls, redefined) = patcher::code_loading_patcher::model_class_loaders(&main, &None, &loads, &classes).unwrap();
    let fuel = ls.len();
    // Parent first: the application's own class wins.
    assert_eq!(ClassLoader::get_ref_new_name(&ls, 1, &"a/Foo".to_string(), false, fuel), Some("a/Foo".to_string()));
    // Delegate last: the loader's own renamed class wins.
    assert_eq!(ClassLoader::get_ref_new_name(&ls, 2, &"a/Foo".to_string(), false, fuel), Some("theseus-dedup/DL/a/Foo".to_string()));
    // Platform classes resolve to themselves.
    assert_eq!(ClassLoader::get_ref_new_name(&ls, 2, &"java/lang/Object".to_string(), true, fuel), Some("java/lang/Object".to_string()));
    // Unknown classes do not resolve.
    assert_eq!(ClassLoader::get_ref_new_name(&ls, 1, &"x/Y".to_string(), false, fuel), None);
    let names = ClassLoader::get_ref_new_names(&ls, 2, &redefined, &vec![false; redefined.len()]);
    assert_eq!(names, vec![("a/Foo".to_string(), "theseus-dedup/DL/a/Foo".to_string())]);
}

#[test]
fn default_strategy_is_naive() {
    assert_eq!(CodePatchingStrategy::default(), CodePatchingStrategy::Naive);
}

// ----- package location -----

#[test]
fn apk_id_from_path_or_hash() {
    let l = ApkLocation { path: Some("/tmp/dir/app.apk".to_string()), sha256: None, androzoo_key: None };
    assert_eq!(l.get_id(), "app.apk");
    let l = ApkLocation { path: Some("/tmp/dir/app.apk//".to_string()), sha256: None, androzoo_key: None };
    assert_eq!(l.get_id(), "app.apk");
    let l = ApkLocation {
        path: None,
        sha256: Some("ABCD".to_string()),
        androzoo_key: Some(AndrozooKey { api_key_path: None, api_key: Some("k".to_string()) }),
    };
    assert_eq!(l.get_id(), "ABCD");
}

// ----- graph export -----

#[test]
fn dot_export_lists_blocks_and_edges() {
    let insns = vec![
        Instruction::If { test: IfTest::EqZ, a: 0, b: 0, label: "L".to_string() },
        label("L"),
        Instruction::ReturnVoid,
    ];
    let texts = vec!["if-eqz v0, :L".to_string(), ":L".to_string(), "return-void".to_string()];
    let g = CFG::new(1, &insns).unwrap();
    let dot = g.to_dot(&"run".to_string(), &texts);
    assert!(dot.starts_with("digraph {\n    overlap=false;\n"));
    assert!(dot.contains("    label=\"run\";\n"));
    assert!(dot.contains("node_0 [shape=record,style=filled,fillcolor=lightgrey,label=\"{\\< ENTRY \\>}\"];"));
    assert!(dot.contains("|if-eqz\\ v0,\\ :L\\l\\\n"));
    assert!(dot.contains("{\\< block 'L' \\>:\\l\\\n"));
    assert!(dot.contains("    node_0:s -> node_1:n [style=\"solid,bold\",color=black,weight=100,constraint=true];\n"));
    assert!(dot.contains("    node_2:s -> node_end:n"));
    assert_eq!(dot.matches(" -> ").count(), 4);
    assert!(dot.ends_with("}\n"));
}

// ----- trace queries and renaming -----

#[test]
fn referenced_methods_listed_once() {
    let a = method("a/Main", "run", vec![], DexType::Void);
    let b = method("a/Main", "other", vec![DexType::Int], DexType::Void);
    let mut data = empty_data();
    data.invoke_data.push(invoke_entry(&a, method("x/Y", "f", vec![], DexType::Void), 1, true));
    data.invoke_data.push(invoke_entry(&a, method("x/Y", "g", vec![], DexType::Void), 2, true));
    data.class_new_inst_data.push(ReflectionClassNewInstData {
        constructor: method("x/Y", "<init>", vec![], DexType::Void),
        constructor_cl_id: "CL".to_string(),
        renamed_constructor: None,
        caller_method: b.duplicate(),
        caller_cl_id: "MAIN".to_string(),
        renamed_caller_method: None,
        addr: 3,
    });
    let r = data.get_method_referenced();
    assert_eq!(r.len(), 2);
    assert!(r[0].same(&a) && r[1].same(&b));
}

#[test]
fn invoke_data_for_site_filters_by_caller_and_address() {
    let a = method("a/Main", "run", vec![], DexType::Void);
    let mut data = empty_data();
    data.invoke_data.push(invoke_entry(&a, method("x/Y", "f", vec![], DexType::Void), 0x10, true));
    data.invoke_data.push(invoke_entry(&a, method("x/Y", "g", vec![], DexType::Void), 0x20, true));
    data.invoke_data.push(invoke_entry(&a, method("x/Y", "h", vec![], DexType::Void), 0x10, true));
    let r = data.get_invoke_data_for(&a, &"THESEUS_ADDR_00000010".to_string());
    let names: Vec<&str> = r.iter().map(|d| d.method.name.as_str()).collect();
    assert_eq!(names, vec!["f", "h"]);
}

#[test]
fn trace_records_get_renamed_targets() {
    let caller = method("a/Main", "run", vec![], DexType::Void);
    let mut data = empty_data();
    data.invoke_data.push(invoke_entry(
        &caller,
        method("a/Foo", "f", vec![DexType::Array { elem: Box::new(class("a/Foo")) }], class("a/Foo")),
        1,
        false,
    ));
    let renamers = vec![("CL".to_string(), vec![("a/Foo".to_string(), "theseus-dedup/CL/a/Foo".to_string())])];
    patcher::code_loading_patcher::rename_runtime_data(&mut data, &renamers);
    let d = &data.invoke_data[0];
    let renamed = d.renamed_method.as_ref().unwrap();
    assert!(renamed.class_.same(&class("theseus-dedup/CL/a/Foo")));
    assert!(renamed.params[0].same(&DexType::Array { elem: Box::new(class("theseus-dedup/CL/a/Foo")) }));
    assert!(renamed.ret.same(&class("theseus-dedup/CL/a/Foo")));
    assert!(d.method.class_.same(&class("a/Foo")));
    // The caller's loader has no renaming map: nothing recorded for it.
    assert!(d.renamed_caller_method.is_none());
    let callee = d.get_static_callee();
    assert!(callee.class_.same(&class("theseus-dedup/CL/a/Foo")));
}

#[test]
fn dedup_keeps_first_of_each_record() {
    let a = method("a/Main", "run", vec![], DexType::Void);
    let mut data = empty_data();
    data.invoke_data.push(invoke_entry(&a, method("x/Y", "f", vec![], DexType::Void), 1, true));
    data.invoke_data.push(invoke_entry(&a, method("x/Y", "g", vec![], DexType::Void), 1, true));
    data.invoke_data.push(invoke_entry(&a, method("x/Y", "f", vec![], DexType::Void), 1, true));
    data.invoke_data.push(invoke_entry(&a, method("x/Y", "f", vec![], DexType::Void), 2, true));
    data.dedup();
    let got: Vec<(String, usize)> = data.invoke_data.iter().map(|d| (d.method.name.clone(), d.addr)).collect();
    assert_eq!(got, vec![("f".to_string(), 1), ("g".to_string(), 1), ("f".to_string(), 2)]);
}

#[test]
fn tester_named_after_class_and_method() {
    let mut m = simple_method(3, 1, vec![
        label("THESEUS_ADDR_00000001"),
        Instruction::Invoke { kind: InvokeKind::Virtual, method: patcher::dex_types::constructor_new_instance(), args: vec![0, 1] },
        Instruction::ReturnVoid,
    ]);
    let mut data = empty_data();
    data.cnstr_new_inst_data.push(patcher::runtime_data::ReflectionCnstrNewInstData {
        constructor: method("a/b/Foo", "<init>", vec![DexType::Int], DexType::Void),
        constructor_cl_id: "CL".to_string(),
        renamed_constructor: None,
        caller_method: m.descriptor.duplicate(),
        caller_cl_id: "MAIN".to_string(),
        renamed_caller_method: None,
        addr: 1,
    });
    let mut pool: Vec<TesterEntry> = vec![];
    transform_method(&mut m, &data, &class("theseus/T"), &mut pool, &vec![]).unwrap();
    assert_eq!(pool.len(), 1);
    assert_eq!(pool[0].method.descriptor.name, "check_is_Foo_init_0");
    assert!(pool[0].method.is_final);
}

#[test]
fn class_new_instance_fallback_keeps_class_register() {
    let caller = method("a/Main", "run", vec![], DexType::Void);
    let data = ReflectionClassNewInstData {
        constructor: method("a/B", "<init>", vec![], DexType::Void),
        constructor_cl_id: "CL".to_string(),
        renamed_constructor: None,
        caller_method: caller,
        caller_cl_id: "MAIN".to_string(),
        renamed_caller_method: None,
        addr: 4,
    };
    let mut ri = RegistersInfo::default();
    ri.array_index = 6;
    ri.array_val = 5;
    let b = get_class_new_inst_block(&data, &vec![1], &ri, &"end".to_string(), &"abort".to_string(), None).unwrap();
    let branch = b.iter().position(|i| matches!(i, Instruction::If { .. })).unwrap();
    for ins in &b[..branch] {
        let writes_class_reg = matches!(ins, Instruction::MoveResultObject { to: 1 } | Instruction::MoveResult { to: 1 } | Instruction::ConstClass { reg: 1, .. });
        assert!(!writes_class_reg);
    }
}

#[test]
fn overflowing_register_file_is_refused() {
    let mut m = simple_method(65530, 1, vec![Instruction::ReturnVoid]);
    let mut pool: Vec<TesterEntry> = vec![];
    assert_eq!(transform_method(&mut m, &empty_data(), &class("theseus/T"), &mut pool, &vec![]), Err(PatchError::RegisterOverflow));
    let mut m = simple_method(3, 4, vec![Instruction::ReturnVoid]);
    assert_eq!(transform_method(&mut m, &empty_data(), &class("theseus/T"), &mut pool, &vec![]), Err(PatchError::RegisterOverflow));
}

#[test]
fn cfg_dangling_handler_label_fails() {
    let insns = vec![
        Instruction::Try { end_label: "e".to_string(), handlers: vec![], default_handler: Some("h".to_string()) },
        label("e"),
        Instruction::ReturnVoid,
    ];
    match CFG::new(1, &insns) {
        Err(CfgError::MissingLabel { label, block }) => {
            assert_eq!(label, "h");
            assert_eq!(block, 1);
        }
        Ok(_) => panic!("expected an error"),
    }
}

#[test]
fn apk_id_ignores_trailing_current_dir() {
    let l = ApkLocation { path: Some("/tmp/dir/app.apk/./".to_string()), sha256: None, androzoo_key: None };
    assert_eq!(l.get_id(), "app.apk");
}

#[test]
fn small_method_site_layout_and_register_count() {
    let mut m = Method {
        descriptor: method("a/C", "m", vec![class("java/lang/Object")], DexType::Void),
        is_static: true,
        is_final: false,
        code: Some(Code { registers_size: 2, ins_size: 1, insns: vec![
            label("THESEUS_ADDR_00000010"),
            reflective_call(vec![0, 1, 0]),
            Instruction::ReturnVoid,
        ] }),
    };
    let mut data = empty_data();
    data.invoke_data.push(invoke_entry(&m.descriptor, method("a/T", "f", vec![], DexType::Void), 0x10, true));
    let mut pool: Vec<TesterEntry> = vec![];
    transform_method(&mut m, &data, &class("theseus/T"), &mut pool, &vec![]).unwrap();
    let code = m.code.unwrap();
    assert_eq!(code.registers_size, 6);
    assert!(matches!(code.insns[0], Instruction::MoveObject { from: 5, to: 1 }));
    assert_eq!(pool.len(), 1);
    assert!(!code.insns.iter().any(|i| matches!(i, Instruction::Move { .. } | Instruction::MoveWide { .. })));
}
