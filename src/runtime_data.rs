//! What a traced run of the application recorded: the targets of reflective calls and the
//! code loaded by class loaders.
use vstd::prelude::*;

use crate::dex_types::{DexType, IdMethod, MethodV};
use crate::labels::{addr_label, addr_label_of};

verus! {

/// A call to `java.lang.reflect.Method.invoke()` observed at run time.
#[derive(Debug)]
pub struct ReflectionInvokeData {
    /// The method invoked.
    pub method: IdMethod,
    /// The id of the class loader that defined the method.
    pub method_cl_id: String,
    /// The name under which the method is called statically, if its class was renamed.
    pub renamed_method: Option<IdMethod>,
    /// The method that made the call.
    pub caller_method: IdMethod,
    /// The id of the class loader that defined the caller.
    pub caller_cl_id: String,
    /// The name of the caller after renaming, if its class was renamed.
    pub renamed_caller_method: Option<IdMethod>,
    /// Address of the call in the caller.
    pub addr: usize,
    /// Whether the invoked method is static (takes no `this`).
    pub is_static: bool,
}

/// An instantiation through `java.lang.Class.newInstance()` observed at run time.
#[derive(Debug)]
pub struct ReflectionClassNewInstData {
    pub constructor: IdMethod,
    pub constructor_cl_id: String,
    pub renamed_constructor: Option<IdMethod>,
    pub caller_method: IdMethod,
    pub caller_cl_id: String,
    pub renamed_caller_method: Option<IdMethod>,
    pub addr: usize,
}

/// An instantiation through `java.lang.reflect.Constructor.newInstance()` observed at run
/// time.
#[derive(Debug)]
pub struct ReflectionCnstrNewInstData {
    pub constructor: IdMethod,
    pub constructor_cl_id: String,
    pub renamed_constructor: Option<IdMethod>,
    pub caller_method: IdMethod,
    pub caller_cl_id: String,
    pub renamed_caller_method: Option<IdMethod>,
    pub addr: usize,
}

/// Code loaded at run time by a class loader.
#[derive(Debug)]
pub struct DynamicCodeLoadingData {
    /// The class of the class loader.
    pub classloader_class: DexType,
    /// The id of the class loader, valid for one run of the application.
    pub classloader: String,
    /// The id of its parent class loader.
    pub classloader_parent: Option<String>,
    /// The files that held the loaded bytecode.
    pub files: Vec<String>,
}

/// A class loader seen at run time.
#[derive(Debug)]
pub struct ClassLoaderData {
    /// Id of the class loader, unique for one run of the application.
    pub id: String,
    /// Id of its parent, if it has one.
    pub parent_id: Option<String>,
    /// Its string representation at run time.
    pub string_representation: String,
    /// Its class.
    pub cname: DexType,
}

/// Where the application was installed.
#[derive(Debug)]
pub struct AppInfo {
    pub data_dir: String,
    pub device_protected_data_dir: String,
    pub native_library_dir: String,
    pub public_source_dir: String,
    pub source_dir: String,
    pub split_public_source_dirs: Option<Vec<String>>,
    pub split_source_dirs: Option<String>,
    pub actual_source_dir: String,
}

/// Everything a traced run recorded.
#[derive(Debug)]
pub struct RuntimeData {
    pub invoke_data: Vec<ReflectionInvokeData>,
    pub class_new_inst_data: Vec<ReflectionClassNewInstData>,
    pub cnstr_new_inst_data: Vec<ReflectionCnstrNewInstData>,
    pub dyn_code_load: Vec<DynamicCodeLoadingData>,
    /// The id of the class loader of the application itself.
    pub apk_cl_id: Option<String>,
    /// The class loaders, by id.
    pub classloaders: Vec<ClassLoaderData>,
    pub app_info: Option<AppInfo>,
}

/// The model of an optional method identifier.
pub open spec fn opt_method(m: Option<IdMethod>) -> Option<MethodV> {
    match m {
        Some(x) => Some(x@),
        None => None,
    }
}

/// The method to call statically: the renamed one if there is one.
pub open spec fn static_target(original: IdMethod, renamed: Option<IdMethod>) -> MethodV {
    match renamed {
        Some(r) => r@,
        None => original@,
    }
}

impl ReflectionInvokeData {
    /// The method to call statically: the renamed method if there is one.
    pub fn get_static_callee(&self) -> (r: IdMethod)
        ensures
            r@ == static_target(self.method, self.renamed_method),
    {
        match &self.renamed_method {
            Some(m) => m.duplicate(),
            None => self.method.duplicate(),
        }
    }
}

impl ReflectionClassNewInstData {
    /// The constructor to call statically: the renamed one if there is one.
    pub fn get_static_constructor(&self) -> (r: IdMethod)
        ensures
            r@ == static_target(self.constructor, self.renamed_constructor),
    {
        match &self.renamed_constructor {
            Some(m) => m.duplicate(),
            None => self.constructor.duplicate(),
        }
    }
}

impl ReflectionCnstrNewInstData {
    /// The constructor to call statically: the renamed one if there is one.
    pub fn get_static_constructor(&self) -> (r: IdMethod)
        ensures
            r@ == static_target(self.constructor, self.renamed_constructor),
    {
        match &self.renamed_constructor {
            Some(m) => m.duplicate(),
            None => self.constructor.duplicate(),
        }
    }
}

/// Whether an invoke record is about the call site `label` of `method`.
pub open spec fn invoke_at(d: ReflectionInvokeData, method: MethodV, label: Seq<char>) -> bool {
    d.caller_method@ == method && addr_label_of(d.addr as nat) == label
}

pub open spec fn class_new_inst_at(
    d: ReflectionClassNewInstData,
    method: MethodV,
    label: Seq<char>,
) -> bool {
    d.caller_method@ == method && addr_label_of(d.addr as nat) == label
}

pub open spec fn cnstr_new_inst_at(
    d: ReflectionCnstrNewInstData,
    method: MethodV,
    label: Seq<char>,
) -> bool {
    d.caller_method@ == method && addr_label_of(d.addr as nat) == label
}

impl RuntimeData {
    /// The calls to `Method.invoke()` recorded at the call site `label` of `method`, in the
    /// order of the trace.
    pub fn get_invoke_data_for<'a>(&'a self, method: &IdMethod, label: &String) -> (r: Vec<
        &'a ReflectionInvokeData,
    >)
        ensures
            r@.map_values(|d: &ReflectionInvokeData| *d) == self.invoke_data@.filter(
                |d: ReflectionInvokeData| invoke_at(d, method@, label@),
            ),
    {
        let mut r: Vec<&ReflectionInvokeData> = Vec::new();
        let mut i: usize = 0;
        while i < self.invoke_data.len()
            invariant
                i <= self.invoke_data@.len(),
                r@.map_values(|d: &ReflectionInvokeData| *d) == self.invoke_data@.take(
                    i as int,
                ).filter(|d: ReflectionInvokeData| invoke_at(d, method@, label@)),
            decreases self.invoke_data@.len() - i,
        {
            let d = &self.invoke_data[i];
            let ghost before = r@;
            proof {
                reveal(Seq::filter);
                assert(self.invoke_data@.take(i as int + 1).drop_last() =~= self.invoke_data@.take(
                    i as int,
                ));
                assert(self.invoke_data@.take(i as int + 1).last() == *d);
            }
            if d.caller_method.same(method) && addr_label(d.addr).eq(label) {
                r.push(d);
                assert(r@.map_values(|d: &ReflectionInvokeData| *d) =~= before.map_values(
                    |d: &ReflectionInvokeData| *d,
                ).push(*d));
            }
            i += 1;
        }
        assert(self.invoke_data@.take(i as int) =~= self.invoke_data@);
        r
    }

    /// The calls to `Class.newInstance()` recorded at the call site `label` of `method`.
    pub fn get_class_new_instance_data_for<'a>(&'a self, method: &IdMethod, label: &String) -> (r:
        Vec<&'a ReflectionClassNewInstData>)
        ensures
            r@.map_values(|d: &ReflectionClassNewInstData| *d) == self.class_new_inst_data@.filter(
                |d: ReflectionClassNewInstData| class_new_inst_at(d, method@, label@),
            ),
    {
        let mut r: Vec<&ReflectionClassNewInstData> = Vec::new();
        let mut i: usize = 0;
        while i < self.class_new_inst_data.len()
            invariant
                i <= self.class_new_inst_data@.len(),
                r@.map_values(|d: &ReflectionClassNewInstData| *d)
                    == self.class_new_inst_data@.take(i as int).filter(
                    |d: ReflectionClassNewInstData| class_new_inst_at(d, method@, label@),
                ),
            decreases self.class_new_inst_data@.len() - i,
        {
            let d = &self.class_new_inst_data[i];
            let ghost before = r@;
            proof {
                reveal(Seq::filter);
                assert(self.class_new_inst_data@.take(i as int + 1).drop_last()
                    =~= self.class_new_inst_data@.take(i as int));
                assert(self.class_new_inst_data@.take(i as int + 1).last() == *d);
            }
            if d.caller_method.same(method) && addr_label(d.addr).eq(label) {
                r.push(d);
                assert(r@.map_values(|d: &ReflectionClassNewInstData| *d) =~= before.map_values(
                    |d: &ReflectionClassNewInstData| *d,
                ).push(*d));
            }
            i += 1;
        }
        assert(self.class_new_inst_data@.take(i as int) =~= self.class_new_inst_data@);
        r
    }

    /// The calls to `Constructor.newInstance()` recorded at the call site `label` of `method`.
    pub fn get_cnstr_new_instance_data_for<'a>(&'a self, method: &IdMethod, label: &String) -> (r:
        Vec<&'a ReflectionCnstrNewInstData>)
        ensures
            r@.map_values(|d: &ReflectionCnstrNewInstData| *d) == self.cnstr_new_inst_data@.filter(
                |d: ReflectionCnstrNewInstData| cnstr_new_inst_at(d, method@, label@),
            ),
    {
        let mut r: Vec<&ReflectionCnstrNewInstData> = Vec::new();
        let mut i: usize = 0;
        while i < self.cnstr_new_inst_data.len()
            invariant
                i <= self.cnstr_new_inst_data@.len(),
                r@.map_values(|d: &ReflectionCnstrNewInstData| *d)
                    == self.cnstr_new_inst_data@.take(i as int).filter(
                    |d: ReflectionCnstrNewInstData| cnstr_new_inst_at(d, method@, label@),
                ),
            decreases self.cnstr_new_inst_data@.len() - i,
        {
            let d = &self.cnstr_new_inst_data[i];
            let ghost before = r@;
            proof {
                reveal(Seq::filter);
                assert(self.cnstr_new_inst_data@.take(i as int + 1).drop_last()
                    =~= self.cnstr_new_inst_data@.take(i as int));
                assert(self.cnstr_new_inst_data@.take(i as int + 1).last() == *d);
            }
            if d.caller_method.same(method) && addr_label(d.addr).eq(label) {
                r.push(d);
                assert(r@.map_values(|d: &ReflectionCnstrNewInstData| *d) =~= before.map_values(
                    |d: &ReflectionCnstrNewInstData| *d,
                ).push(*d));
            }
            i += 1;
        }
        assert(self.cnstr_new_inst_data@.take(i as int) =~= self.cnstr_new_inst_data@);
        r
    }
}

/// The models of a list of method identifiers.
pub open spec fn methods_view(v: Seq<IdMethod>) -> Seq<MethodV> {
    v.map_values(|m: IdMethod| m@)
}

/// The methods that made a recorded reflective call.
pub open spec fn is_caller(rd: RuntimeData, m: MethodV) -> bool {
    (exists|k: int| 0 <= k < rd.invoke_data@.len() && #[trigger] rd.invoke_data@[k].caller_method@ == m)
        || (exists|k: int|
        0 <= k < rd.class_new_inst_data@.len() && #[trigger] rd.class_new_inst_data@[k].caller_method@
            == m) || (exists|k: int|
        0 <= k < rd.cnstr_new_inst_data@.len() && #[trigger] rd.cnstr_new_inst_data@[k].caller_method@
            == m)
}

fn add_method(out: &mut Vec<IdMethod>, m: &IdMethod)
    ensures
        methods_view(old(out)@).no_duplicates() ==> methods_view(final(out)@).no_duplicates(),
        methods_view(final(out)@).contains(m@),
        forall|x: MethodV|
            methods_view(final(out)@).contains(x) ==> methods_view(old(out)@).contains(x) || x == m@,
        forall|x: MethodV| methods_view(old(out)@).contains(x) ==> methods_view(final(out)@).contains(x),
{
    let mut i: usize = 0;
    while i < out.len()
        invariant
            i <= out@.len(),
            *out == *old(out),
            forall|k: int| 0 <= k < i ==> out@[k]@ != m@,
        decreases out@.len() - i,
    {
        if out[i].same(m) {
            assert(methods_view(out@)[i as int] == m@);
            return ;
        }
        i += 1;
    }
    let ghost before = methods_view(out@);
    out.push(m.duplicate());
    assert(methods_view(out@) =~= before.push(m@));
    assert(methods_view(out@)[before.len() as int] == m@);
    assert(!before.contains(m@)) by {
        assert forall|k: int| 0 <= k < before.len() implies before[k] != m@ by {
            assert(before[k] == old(out)@[k]@);
        }
    }
    assert forall|x: MethodV| before.contains(x) implies methods_view(out@).contains(x) by {
        let k = choose|k: int| 0 <= k < before.len() && before[k] == x;
        assert(methods_view(out@)[k] == x);
    }
}

impl RuntimeData {
    /// The methods that made reflective calls, each once.
    pub fn get_method_referenced(&self) -> (r: Vec<IdMethod>)
        ensures
            methods_view(r@).no_duplicates(),
            forall|m: MethodV| methods_view(r@).contains(m) <==> is_caller(*self, m),
    {
        let mut out: Vec<IdMethod> = Vec::new();
        let mut i: usize = 0;
        while i < self.invoke_data.len()
            invariant
                i <= self.invoke_data@.len(),
                methods_view(out@).no_duplicates(),
                forall|m: MethodV| methods_view(out@).contains(m) <==> (exists|k: int|
                    0 <= k < i && #[trigger] self.invoke_data@[k].caller_method@ == m),
            decreases self.invoke_data@.len() - i,
        {
            add_method(&mut out, &self.invoke_data[i].caller_method);
            i += 1;
        }
        let mut i: usize = 0;
        while i < self.class_new_inst_data.len()
            invariant
                i <= self.class_new_inst_data@.len(),
                methods_view(out@).no_duplicates(),
                forall|m: MethodV| methods_view(out@).contains(m) <==> ((exists|k: int|
                    0 <= k < self.invoke_data@.len() && #[trigger] self.invoke_data@[k].caller_method@ == m)
                    || exists|k: int|
                    0 <= k < i && #[trigger] self.class_new_inst_data@[k].caller_method@ == m),
            decreases self.class_new_inst_data@.len() - i,
        {
            add_method(&mut out, &self.class_new_inst_data[i].caller_method);
            i += 1;
        }
        let mut i: usize = 0;
        while i < self.cnstr_new_inst_data.len()
            invariant
                i <= self.cnstr_new_inst_data@.len(),
                methods_view(out@).no_duplicates(),
                forall|m: MethodV| methods_view(out@).contains(m) <==> ((exists|k: int|
                    0 <= k < self.invoke_data@.len() && #[trigger] self.invoke_data@[k].caller_method@ == m)
                    || (exists|k: int|
                    0 <= k < self.class_new_inst_data@.len()
                        && #[trigger] self.class_new_inst_data@[k].caller_method@ == m) || exists|k: int|
                    0 <= k < i && #[trigger] self.cnstr_new_inst_data@[k].caller_method@ == m),
            decreases self.cnstr_new_inst_data@.len() - i,
        {
            add_method(&mut out, &self.cnstr_new_inst_data[i].caller_method);
            i += 1;
        }
        out
    }
}

fn same_opt_method(a: &Option<IdMethod>, b: &Option<IdMethod>) -> (r: bool)
    ensures
        r == (opt_method(*a) == opt_method(*b)),
{
    match (a, b) {
        (Some(x), Some(y)) => x.same(y),
        (None, None) => true,
        _ => false,
    }
}

fn dup_opt_method(a: &Option<IdMethod>) -> (r: Option<IdMethod>)
    ensures
        opt_method(r) == opt_method(*a),
{
    match a {
        Some(x) => Some(x.duplicate()),
        None => None,
    }
}

/// The contents of a record, as one value.
pub type RecordKey = (MethodV, Seq<char>, Option<MethodV>, MethodV, Seq<char>, Option<MethodV>, usize, bool);

/// The contents of the records of a list.
pub open spec fn invoke_keys(v: Seq<ReflectionInvokeData>) -> Seq<RecordKey> {
    v.map_values(|x: ReflectionInvokeData| invoke_key(x))
}

/// The contents of a record.
pub open spec fn invoke_key(d: ReflectionInvokeData) -> RecordKey {
    (
        d.method@,
        d.method_cl_id@,
        opt_method(d.renamed_method),
        d.caller_method@,
        d.caller_cl_id@,
        opt_method(d.renamed_caller_method),
        d.addr,
        d.is_static,
    )
}

fn invoke_dup(d: &ReflectionInvokeData) -> (r: ReflectionInvokeData)
    ensures
        invoke_key(r) == invoke_key(*d),
{
    ReflectionInvokeData {
        method: d.method.duplicate(),
        method_cl_id: d.method_cl_id.clone(),
        renamed_method: dup_opt_method(&d.renamed_method),
        caller_method: d.caller_method.duplicate(),
        caller_cl_id: d.caller_cl_id.clone(),
        renamed_caller_method: dup_opt_method(&d.renamed_caller_method),
        addr: d.addr,
        is_static: d.is_static,
    }
}

fn invoke_seen(r: &Vec<ReflectionInvokeData>, d: &ReflectionInvokeData) -> (found: bool)
    ensures
        found == invoke_keys(r@).contains(invoke_key(*d)),
{
    let ghost ks = invoke_keys(r@);
    let mut k: usize = 0;
    while k < r.len()
        invariant
            k <= r@.len(),
            ks == invoke_keys(r@),
            forall|b: int| 0 <= b < k ==> ks[b] != invoke_key(*d),
        decreases r@.len() - k,
    {
        let a = &r[k];
        if a.method.same(&d.method) && a.method_cl_id.eq(&d.method_cl_id) && same_opt_method(&a.renamed_method, &d.renamed_method)
            && a.caller_method.same(&d.caller_method) && a.caller_cl_id.eq(&d.caller_cl_id)
            && same_opt_method(&a.renamed_caller_method, &d.renamed_caller_method) && a.addr == d.addr && a.is_static == d.is_static {
            assert(ks[k as int] == invoke_key(*d));
            return true;
        }
        k += 1;
    }
    false
}

/// The records of `v`, each once, in the order of their first occurrence.
fn invoke_dedup(v: &Vec<ReflectionInvokeData>) -> (r: Vec<ReflectionInvokeData>)
    ensures
        invoke_keys(r@).no_duplicates(),
        forall|c: RecordKey|
            #[trigger] invoke_keys(r@).contains(c) <==> invoke_keys(v@).contains(c),
{
    let ghost vk = invoke_keys(v@);
    let mut r: Vec<ReflectionInvokeData> = Vec::new();
    let mut i: usize = 0;
    while i < v.len()
        invariant
            i <= v@.len(),
            vk == invoke_keys(v@),
            invoke_keys(r@).no_duplicates(),
            forall|c: RecordKey|
                #[trigger] invoke_keys(r@).contains(c) <==> vk.take(i as int).contains(c),
        decreases v@.len() - i,
    {
        let ghost before = invoke_keys(r@);
        let ghost c0 = vk[i as int];
        assert(vk.take(i as int + 1) =~= vk.take(i as int).push(c0));
        if !invoke_seen(&r, &v[i]) {
            r.push(invoke_dup(&v[i]));
            assert(invoke_keys(r@) =~= before.push(c0));
        }
        assert forall|c: RecordKey|
            #[trigger] invoke_keys(r@).contains(c) <==> vk.take(i as int + 1).contains(c) by {
            let now = invoke_keys(r@);
            let t = vk.take(i as int + 1);
            if now.contains(c) {
                let b = choose|b: int| 0 <= b < now.len() && now[b] == c;
                if b < before.len() {
                    assert(before[b] == c);
                    assert(before.contains(c));
                    assert(vk.take(i as int).contains(c));
                    let a = choose|a: int| 0 <= a < vk.take(i as int).len() && vk.take(i as int)[a] == c;
                    assert(t[a] == c);
                } else {
                    assert(t[i as int] == c);
                }
            }
            if t.contains(c) {
                let a = choose|a: int| 0 <= a < t.len() && t[a] == c;
                if a < i {
                    assert(vk.take(i as int)[a] == c);
                    assert(vk.take(i as int).contains(c));
                    assert(before.contains(c));
                    let b = choose|b: int| 0 <= b < before.len() && before[b] == c;
                    assert(now[b] == c);
                } else if now.len() > before.len() {
                    assert(now[before.len() as int] == c);
                }
            }
        }
        i += 1;
    }
    assert(vk.take(i as int) =~= vk);
    r
}

/// The contents of the records of a list.
pub open spec fn class_new_keys(v: Seq<ReflectionClassNewInstData>) -> Seq<RecordKey> {
    v.map_values(|x: ReflectionClassNewInstData| class_new_key(x))
}

/// The contents of a record.
pub open spec fn class_new_key(d: ReflectionClassNewInstData) -> RecordKey {
    (
        d.constructor@,
        d.constructor_cl_id@,
        opt_method(d.renamed_constructor),
        d.caller_method@,
        d.caller_cl_id@,
        opt_method(d.renamed_caller_method),
        d.addr,
        false,
    )
}

fn class_new_dup(d: &ReflectionClassNewInstData) -> (r: ReflectionClassNewInstData)
    ensures
        class_new_key(r) == class_new_key(*d),
{
    ReflectionClassNewInstData {
        constructor: d.constructor.duplicate(),
        constructor_cl_id: d.constructor_cl_id.clone(),
        renamed_constructor: dup_opt_method(&d.renamed_constructor),
        caller_method: d.caller_method.duplicate(),
        caller_cl_id: d.caller_cl_id.clone(),
        renamed_caller_method: dup_opt_method(&d.renamed_caller_method),
        addr: d.addr,
    }
}

fn class_new_seen(r: &Vec<ReflectionClassNewInstData>, d: &ReflectionClassNewInstData) -> (found: bool)
    ensures
        found == class_new_keys(r@).contains(class_new_key(*d)),
{
    let ghost ks = class_new_keys(r@);
    let mut k: usize = 0;
    while k < r.len()
        invariant
            k <= r@.len(),
            ks == class_new_keys(r@),
            forall|b: int| 0 <= b < k ==> ks[b] != class_new_key(*d),
        decreases r@.len() - k,
    {
        let a = &r[k];
        if a.constructor.same(&d.constructor) && a.constructor_cl_id.eq(&d.constructor_cl_id) && same_opt_method(&a.renamed_constructor, &d.renamed_constructor)
            && a.caller_method.same(&d.caller_method) && a.caller_cl_id.eq(&d.caller_cl_id)
            && same_opt_method(&a.renamed_caller_method, &d.renamed_caller_method) && a.addr == d.addr {
            assert(ks[k as int] == class_new_key(*d));
            return true;
        }
        k += 1;
    }
    false
}

/// The records of `v`, each once, in the order of their first occurrence.
fn class_new_dedup(v: &Vec<ReflectionClassNewInstData>) -> (r: Vec<ReflectionClassNewInstData>)
    ensures
        class_new_keys(r@).no_duplicates(),
        forall|c: RecordKey|
            #[trigger] class_new_keys(r@).contains(c) <==> class_new_keys(v@).contains(c),
{
    let ghost vk = class_new_keys(v@);
    let mut r: Vec<ReflectionClassNewInstData> = Vec::new();
    let mut i: usize = 0;
    while i < v.len()
        invariant
            i <= v@.len(),
            vk == class_new_keys(v@),
            class_new_keys(r@).no_duplicates(),
            forall|c: RecordKey|
                #[trigger] class_new_keys(r@).contains(c) <==> vk.take(i as int).contains(c),
        decreases v@.len() - i,
    {
        let ghost before = class_new_keys(r@);
        let ghost c0 = vk[i as int];
        assert(vk.take(i as int + 1) =~= vk.take(i as int).push(c0));
        if !class_new_seen(&r, &v[i]) {
            r.push(class_new_dup(&v[i]));
            assert(class_new_keys(r@) =~= before.push(c0));
        }
        assert forall|c: RecordKey|
            #[trigger] class_new_keys(r@).contains(c) <==> vk.take(i as int + 1).contains(c) by {
            let now = class_new_keys(r@);
            let t = vk.take(i as int + 1);
            if now.contains(c) {
                let b = choose|b: int| 0 <= b < now.len() && now[b] == c;
                if b < before.len() {
                    assert(before[b] == c);
                    assert(before.contains(c));
                    assert(vk.take(i as int).contains(c));
                    let a = choose|a: int| 0 <= a < vk.take(i as int).len() && vk.take(i as int)[a] == c;
                    assert(t[a] == c);
                } else {
                    assert(t[i as int] == c);
                }
            }
            if t.contains(c) {
                let a = choose|a: int| 0 <= a < t.len() && t[a] == c;
                if a < i {
                    assert(vk.take(i as int)[a] == c);
                    assert(vk.take(i as int).contains(c));
                    assert(before.contains(c));
                    let b = choose|b: int| 0 <= b < before.len() && before[b] == c;
                    assert(now[b] == c);
                } else if now.len() > before.len() {
                    assert(now[before.len() as int] == c);
                }
            }
        }
        i += 1;
    }
    assert(vk.take(i as int) =~= vk);
    r
}

/// The contents of the records of a list.
pub open spec fn cnstr_keys(v: Seq<ReflectionCnstrNewInstData>) -> Seq<RecordKey> {
    v.map_values(|x: ReflectionCnstrNewInstData| cnstr_key(x))
}

/// The contents of a record.
pub open spec fn cnstr_key(d: ReflectionCnstrNewInstData) -> RecordKey {
    (
        d.constructor@,
        d.constructor_cl_id@,
        opt_method(d.renamed_constructor),
        d.caller_method@,
        d.caller_cl_id@,
        opt_method(d.renamed_caller_method),
        d.addr,
        false,
    )
}

fn cnstr_dup(d: &ReflectionCnstrNewInstData) -> (r: ReflectionCnstrNewInstData)
    ensures
        cnstr_key(r) == cnstr_key(*d),
{
    ReflectionCnstrNewInstData {
        constructor: d.constructor.duplicate(),
        constructor_cl_id: d.constructor_cl_id.clone(),
        renamed_constructor: dup_opt_method(&d.renamed_constructor),
        caller_method: d.caller_method.duplicate(),
        caller_cl_id: d.caller_cl_id.clone(),
        renamed_caller_method: dup_opt_method(&d.renamed_caller_method),
        addr: d.addr,
    }
}

fn cnstr_seen(r: &Vec<ReflectionCnstrNewInstData>, d: &ReflectionCnstrNewInstData) -> (found: bool)
    ensures
        found == cnstr_keys(r@).contains(cnstr_key(*d)),
{
    let ghost ks = cnstr_keys(r@);
    let mut k: usize = 0;
    while k < r.len()
        invariant
            k <= r@.len(),
            ks == cnstr_keys(r@),
            forall|b: int| 0 <= b < k ==> ks[b] != cnstr_key(*d),
        decreases r@.len() - k,
    {
        let a = &r[k];
        if a.constructor.same(&d.constructor) && a.constructor_cl_id.eq(&d.constructor_cl_id) && same_opt_method(&a.renamed_constructor, &d.renamed_constructor)
            && a.caller_method.same(&d.caller_method) && a.caller_cl_id.eq(&d.caller_cl_id)
            && same_opt_method(&a.renamed_caller_method, &d.renamed_caller_method) && a.addr == d.addr {
            assert(ks[k as int] == cnstr_key(*d));
            return true;
        }
        k += 1;
    }
    false
}

/// The records of `v`, each once, in the order of their first occurrence.
fn cnstr_dedup(v: &Vec<ReflectionCnstrNewInstData>) -> (r: Vec<ReflectionCnstrNewInstData>)
    ensures
        cnstr_keys(r@).no_duplicates(),
        forall|c: RecordKey|
            #[trigger] cnstr_keys(r@).contains(c) <==> cnstr_keys(v@).contains(c),
{
    let ghost vk = cnstr_keys(v@);
    let mut r: Vec<ReflectionCnstrNewInstData> = Vec::new();
    let mut i: usize = 0;
    while i < v.len()
        invariant
            i <= v@.len(),
            vk == cnstr_keys(v@),
            cnstr_keys(r@).no_duplicates(),
            forall|c: RecordKey|
                #[trigger] cnstr_keys(r@).contains(c) <==> vk.take(i as int).contains(c),
        decreases v@.len() - i,
    {
        let ghost before = cnstr_keys(r@);
        let ghost c0 = vk[i as int];
        assert(vk.take(i as int + 1) =~= vk.take(i as int).push(c0));
        if !cnstr_seen(&r, &v[i]) {
            r.push(cnstr_dup(&v[i]));
            assert(cnstr_keys(r@) =~= before.push(c0));
        }
        assert forall|c: RecordKey|
            #[trigger] cnstr_keys(r@).contains(c) <==> vk.take(i as int + 1).contains(c) by {
            let now = cnstr_keys(r@);
            let t = vk.take(i as int + 1);
            if now.contains(c) {
                let b = choose|b: int| 0 <= b < now.len() && now[b] == c;
                if b < before.len() {
                    assert(before[b] == c);
                    assert(before.contains(c));
                    assert(vk.take(i as int).contains(c));
                    let a = choose|a: int| 0 <= a < vk.take(i as int).len() && vk.take(i as int)[a] == c;
                    assert(t[a] == c);
                } else {
                    assert(t[i as int] == c);
                }
            }
            if t.contains(c) {
                let a = choose|a: int| 0 <= a < t.len() && t[a] == c;
                if a < i {
                    assert(vk.take(i as int)[a] == c);
                    assert(vk.take(i as int).contains(c));
                    assert(before.contains(c));
                    let b = choose|b: int| 0 <= b < before.len() && before[b] == c;
                    assert(now[b] == c);
                } else if now.len() > before.len() {
                    assert(now[before.len() as int] == c);
                }
            }
        }
        i += 1;
    }
    assert(vk.take(i as int) =~= vk);
    r
}

impl RuntimeData {
    /// Removes repeated records: afterwards each record of the trace occurs once, and no
    /// record that was not in the trace appears.
    pub fn dedup(&mut self)
        ensures
            invoke_keys(final(self).invoke_data@).no_duplicates(),
            forall|c: RecordKey|
                #[trigger] invoke_keys(final(self).invoke_data@).contains(c) <==> invoke_keys(
                    old(self).invoke_data@,
                ).contains(c),
            class_new_keys(final(self).class_new_inst_data@).no_duplicates(),
            forall|c: RecordKey|
                #[trigger] class_new_keys(final(self).class_new_inst_data@).contains(c)
                    <==> class_new_keys(old(self).class_new_inst_data@).contains(c),
            cnstr_keys(final(self).cnstr_new_inst_data@).no_duplicates(),
            forall|c: RecordKey|
                #[trigger] cnstr_keys(final(self).cnstr_new_inst_data@).contains(c) <==> cnstr_keys(
                    old(self).cnstr_new_inst_data@,
                ).contains(c),
    {
        let invoke = invoke_dedup(&self.invoke_data);
        let class_new = class_new_dedup(&self.class_new_inst_data);
        let cnstr = cnstr_dedup(&self.cnstr_new_inst_data);
        self.invoke_data = invoke;
        self.class_new_inst_data = class_new;
        self.cnstr_new_inst_data = cnstr;
    }
}

} // verus!
