//! The model of the class loaders that loaded code at run time, the renaming of the classes
//! whose names collide when their code is merged into the application, and the resolution of
//! type references through the delegation of each loader.
use vstd::prelude::*;

use crate::code_analysis::strs;
use crate::labels::{dec, lemma_dec_injective, push_dec};
use vstd::relations::injective_on;
use vstd::set_lib::*;
use crate::dex_types::{DexType, IdMethod, MethodV, TyV};
use crate::runtime_data::{
    DynamicCodeLoadingData, ReflectionClassNewInstData, ReflectionCnstrNewInstData,
    ReflectionInvokeData, RuntimeData,
};

verus! {

/// How the code loaded at run time is put back into the application.
#[derive(Debug, PartialEq, Eq, Clone, Copy, Structural)]
pub enum CodePatchingStrategy {
    /// Add the code as it is, ignoring collisions of class names.
    Naive,
    /// Model the class loaders: rename colliding classes and resolve references through the
    /// delegation of each loader.
    ModelClassLoaders,
}

impl Default for CodePatchingStrategy {
    fn default() -> (r: CodePatchingStrategy)
        ensures
            r == CodePatchingStrategy::Naive,
    {
        CodePatchingStrategy::Naive
    }
}

/// A class loader: its id, its parent's id, its class, the names of the classes its image
/// defines (after renaming), and the renamings done, old name to new name.
#[derive(Debug)]
pub struct ClassLoader {
    pub id: String,
    pub parent: Option<String>,
    pub class: DexType,
    pub classes: Vec<String>,
    pub renamed_classes: Vec<(String, String)>,
}

/// Why the class loaders could not be modelled.
#[derive(Debug, PartialEq, Eq, Structural)]
pub enum LoaderError {
    /// A class to rename is not defined by the loader.
    ClassNotFound,
    /// The same loader id appears twice.
    DuplicateLoader,
    /// No free name was found for a renamed class.
    NoFreeName,
}

/// The `i`-th name tried for the class `name` of the loader `id`:
/// `theseus-dedup/<id>/<name>`, then `theseus-dedup/<id>-<i>/<name>`.
pub open spec fn dedup_name(id: Seq<char>, name: Seq<char>, i: nat) -> Seq<char> {
    if i == 0 {
        "theseus-dedup/"@ + id + "/"@ + name
    } else {
        "theseus-dedup/"@ + id + "-"@ + dec(i) + "/"@ + name
    }
}

fn dedup_name_exec(id: &String, name: &String, i: usize) -> (r: String)
    ensures
        r@ == dedup_name(id@, name@, i as nat),
{
    let mut s = String::from_str("theseus-dedup/");
    s.append(id.as_str());
    if i > 0 {
        s.append("-");
        push_dec(i, &mut s);
    }
    s.append("/");
    s.append(name.as_str());
    s
}

fn contains_name(v: &Vec<String>, x: &String) -> (r: bool)
    ensures
        r == strs(v@).contains(x@),
{
    let mut i: usize = 0;
    while i < v.len()
        invariant
            i <= v@.len(),
            forall|k: int| 0 <= k < i ==> v@[k]@ != x@,
        decreases v@.len() - i,
    {
        if v[i].eq(x) {
            assert(strs(v@)[i as int] == x@);
            return true;
        }
        i += 1;
    }
    assert forall|k: int| 0 <= k < strs(v@).len() implies strs(v@)[k] != x@ by {
        assert(strs(v@)[k] == v@[k]@);
    }
    false
}

fn index_of_name(v: &Vec<String>, x: &String) -> (r: Option<usize>)
    ensures
        r matches Some(p) ==> p < v@.len() && v@[p as int]@ == x@,
        r is None ==> !strs(v@).contains(x@),
{
    let mut i: usize = 0;
    while i < v.len()
        invariant
            i <= v@.len(),
            forall|k: int| 0 <= k < i ==> v@[k]@ != x@,
        decreases v@.len() - i,
    {
        if v[i].eq(x) {
            return Some(i);
        }
        i += 1;
    }
    assert forall|k: int| 0 <= k < strs(v@).len() implies strs(v@)[k] != x@ by {
        assert(strs(v@)[k] == v@[k]@);
    }
    None
}

/// The first name tried for `name` that `taken` does not hold, from the `i`-th on, within
/// `fuel` tries.
pub open spec fn free_dedup_name(
    id: Seq<char>,
    name: Seq<char>,
    taken: Seq<Seq<char>>,
    i: nat,
    fuel: nat,
) -> Option<Seq<char>>
    decreases fuel,
{
    if fuel == 0 {
        None
    } else if !taken.contains(dedup_name(id, name, i)) {
        Some(dedup_name(id, name, i))
    } else {
        free_dedup_name(id, name, taken, i + 1, (fuel - 1) as nat)
    }
}

/// The names tried for one class are all different.
proof fn lemma_dedup_name_injective(id: Seq<char>, name: Seq<char>, i: nat, j: nat)
    requires
        dedup_name(id, name, i) == dedup_name(id, name, j),
    ensures
        i == j,
{
    reveal_strlit("theseus-dedup/");
    reveal_strlit("/");
    reveal_strlit("-");
    let p = "theseus-dedup/"@ + id;
    let s = dedup_name(id, name, i);
    if i == 0 && j != 0 {
        assert(s[p.len() as int] == '/');
        assert(dedup_name(id, name, j)[p.len() as int] == '-');
    } else if i != 0 && j == 0 {
        assert(s[p.len() as int] == '-');
        assert(dedup_name(id, name, j)[p.len() as int] == '/');
    } else if i != 0 && j != 0 {
        let a = p + "-"@;
        assert(s == a + dec(i) + ("/"@ + name));
        assert(dedup_name(id, name, j) == a + dec(j) + ("/"@ + name));
        assert(dec(i).len() == dec(j).len());
        assert(dec(i) =~= s.subrange(a.len() as int, (a.len() + dec(i).len()) as int));
        assert(dec(j) =~= s.subrange(a.len() as int, (a.len() + dec(j).len()) as int));
        lemma_dec_injective(i, j);
    }
}

proof fn lemma_none_all_taken(id: Seq<char>, name: Seq<char>, taken: Seq<Seq<char>>, i: nat, fuel: nat)
    requires
        free_dedup_name(id, name, taken, i, fuel) is None,
    ensures
        forall|j: nat| i <= j < i + fuel ==> taken.contains(#[trigger] dedup_name(id, name, j)),
    decreases fuel,
{
    if fuel > 0 {
        lemma_none_all_taken(id, name, taken, i + 1, (fuel - 1) as nat);
    }
}

/// Among `taken.len() + 1` different names one is not taken.
pub proof fn lemma_free_name_exists(id: Seq<char>, name: Seq<char>, taken: Seq<Seq<char>>)
    ensures
        free_dedup_name(id, name, taken, 0, (taken.len() + 1) as nat) is Some,
{
    broadcast use vstd::seq_lib::seq_to_set_is_finite;

    if free_dedup_name(id, name, taken, 0, (taken.len() + 1) as nat) is None {
        let l = taken.len() as int;
        lemma_none_all_taken(id, name, taken, 0, (taken.len() + 1) as nat);
        let r = set_int_range(0, l + 1);
        let f = |i: int| dedup_name(id, name, i as nat);
        lemma_int_range(0, l + 1);
        assert(injective_on(f, r)) by {
            assert forall|a: int, b: int| r.contains(a) && r.contains(b) && #[trigger] f(a) == #[trigger] f(b) implies a == b by {
                lemma_dedup_name_injective(id, name, a as nat, b as nat);
            }
        }
        let c = r.map(f);
        lemma_map_size(r, c, f);
        assert(c.subset_of(taken.to_set())) by {
            assert forall|x: Seq<char>| c.contains(x) implies taken.to_set().contains(x) by {
                let i = choose|i: int| r.contains(i) && f(i) == x;
                assert(taken.contains(dedup_name(id, name, i as nat)));
            }
        }
        lemma_len_subset(c, taken.to_set());
        taken.lemma_cardinality_of_set();
        assert(false);
    }
}

impl ClassLoader {
    /// Renames the class `cls` of this loader to the first name of the form
    /// `theseus-dedup/<id>[-<i>]/<cls>` that no name of `taken` holds (`taken` holds every name
    /// defined so far, this loader's included), and records the renaming.
    pub fn rename_classdef(&mut self, cls: &String, taken: &Vec<String>) -> (r: Result<
        String,
        LoaderError,
    >)
        ensures
            r matches Ok(n) ==> {
                &&& Some(n@) == free_dedup_name(
                    old(self).id@,
                    cls@,
                    strs(taken@),
                    0,
                    (taken@.len() + 1) as nat,
                )
                &&& exists|p: int|
                    0 <= p < old(self).classes@.len() && old(self).classes@[p]@ == cls@
                        && final(self).classes@ == old(self).classes@.update(p, n)
                &&& final(self).renamed_classes@ == old(self).renamed_classes@.push((*cls, n))
            },
            r == Err::<String, LoaderError>(LoaderError::ClassNotFound) ==> !strs(
                old(self).classes@,
            ).contains(cls@),
            r is Err ==> *final(self) == *old(self),
            strs(old(self).classes@).contains(cls@) && taken@.len() < usize::MAX ==> r is Ok,
            final(self).id == old(self).id,
            final(self).parent == old(self).parent,
            final(self).class == old(self).class,
    {
        let pos = match index_of_name(&self.classes, cls) {
            Some(p) => p,
            None => {
                return Err(LoaderError::ClassNotFound);
            },
        };
        if taken.len() == usize::MAX {
            return Err(LoaderError::NoFreeName);
        }
        let mut i: usize = 0;
        let fuel = taken.len() + 1;
        let ghost t = strs(taken@);
        proof {
            lemma_free_name_exists(self.id@, cls@, t);
        }
        while i < fuel
            invariant
                fuel == taken@.len() + 1,
                t == strs(taken@),
                *self == *old(self),
                pos < self.classes@.len(),
                self.classes@[pos as int]@ == cls@,
                i <= fuel,
                free_dedup_name(self.id@, cls@, t, 0, fuel as nat) == free_dedup_name(
                    self.id@,
                    cls@,
                    t,
                    i as nat,
                    (fuel - i) as nat,
                ),
            decreases fuel - i,
        {
            let candidate = dedup_name_exec(&self.id, cls, i);
            if !contains_name(taken, &candidate) {
                let ghost old_classes = self.classes@;
                self.classes.set(pos, candidate.clone());
                self.renamed_classes.push((cls.clone(), candidate.clone()));
                assert(self.classes@ == old_classes.update(pos as int, candidate));
                return Ok(candidate);
            }
            i += 1;
        }
        assert(free_dedup_name(self.id@, cls@, t, i as nat, (fuel - i) as nat) is None);
        Err(LoaderError::NoFreeName)
    }
}

proof fn lemma_free_name_fresh(id: Seq<char>, name: Seq<char>, taken: Seq<Seq<char>>, i: nat, fuel: nat)
    ensures
        free_dedup_name(id, name, taken, i, fuel) matches Some(n) ==> !taken.contains(n),
    decreases fuel,
{
    if fuel > 0 && taken.contains(dedup_name(id, name, i)) {
        lemma_free_name_fresh(id, name, taken, i + 1, (fuel - 1) as nat);
    }
}

/// Every class name defined by the loaders, loader after loader.
pub open spec fn all_classes(ls: Seq<ClassLoader>) -> Seq<Seq<char>>
    decreases ls.len(),
{
    if ls.len() == 0 {
        seq![]
    } else {
        all_classes(ls.drop_last()) + strs(ls.last().classes@)
    }
}

fn copy_names(v: &Vec<String>) -> (r: Vec<String>)
    ensures
        strs(r@) == strs(v@),
        r@.len() == v@.len(),
        forall|k: int| 0 <= k < v@.len() ==> #[trigger] r@[k]@ == v@[k]@,
{
    let mut r: Vec<String> = Vec::new();
    let mut i: usize = 0;
    while i < v.len()
        invariant
            i <= v@.len(),
            r@.len() == i,
            forall|k: int| 0 <= k < i ==> #[trigger] r@[k]@ == v@[k]@,
        decreases v@.len() - i,
    {
        r.push(v[i].clone());
        i += 1;
    }
    assert(strs(r@) =~= strs(v@));
    r
}

fn append_names(dst: &mut Vec<String>, v: &Vec<String>)
    ensures
        strs(final(dst)@) == strs(old(dst)@) + strs(v@),
{
    let mut c = copy_names(v);
    let ghost a = strs(dst@);
    let ghost b = strs(c@);
    dst.append(&mut c);
    assert(strs(dst@) =~= a + b);
}

/// The id of the application's own class loader: the recorded one, or `MAIN`.
pub open spec fn main_id(apk_cl_id: Option<String>) -> Seq<char> {
    match apk_cl_id {
        Some(id) => id@,
        None => "MAIN"@,
    }
}

/// Total number of names in the lists of `v`.
pub open spec fn sum_lens(v: Seq<Vec<String>>) -> nat
    decreases v.len(),
{
    if v.len() == 0 {
        0
    } else {
        sum_lens(v.drop_last()) + v.last()@.len()
    }
}

proof fn lemma_sum_lens_prefix(v: Seq<Vec<String>>, b: int)
    requires
        0 <= b <= v.len(),
    ensures
        sum_lens(v.take(b)) <= sum_lens(v),
    decreases v.len() - b,
{
    if b < v.len() {
        lemma_sum_lens_prefix(v, b + 1);
        assert(v.take(b + 1).drop_last() =~= v.take(b));
    } else {
        assert(v.take(b) =~= v);
    }
}

/// The ids of the loaders that loaded code differ from each other and from the id of the
/// application's own loader.
pub open spec fn loader_ids_distinct(main: Seq<char>, d: Seq<DynamicCodeLoadingData>) -> bool {
    &&& forall|k: int| 0 <= k < d.len() ==> #[trigger] d[k].classloader@ != main
    &&& forall|k: int, l: int| 0 <= k < l < d.len() ==> #[trigger] d[k].classloader@ != #[trigger] d[l].classloader@
}

/// The classes `got` of a loader that loaded the classes `cs`, given the names `prev` defined
/// before it: a name that `prev` does not hold is kept, a name that it holds is renamed to one
/// of the names tried for it.
pub open spec fn renamed_where_taken(
    prev: Seq<Seq<char>>,
    id: Seq<char>,
    cs: Seq<Seq<char>>,
    got: Seq<Seq<char>>,
) -> bool {
    &&& got.len() == cs.len()
    &&& forall|p: int|
        0 <= p < cs.len() ==> #[trigger] name_kept_or_renamed(
            prev,
            id,
            cs[p],
            got[p],
            prev + got.take(p) + cs.skip(p),
        )
}

/// A name `c` of a loader `id` became `got`: kept when `prev` (the names of the earlier
/// loaders) does not hold it; when it does, renamed to the first name tried for it that no name
/// defined at that moment (`now`: the earlier loaders' names, then this loader's names as they
/// stand) holds.
pub open spec fn name_kept_or_renamed(
    prev: Seq<Seq<char>>,
    id: Seq<char>,
    c: Seq<char>,
    got: Seq<char>,
    now: Seq<Seq<char>>,
) -> bool {
    (got == c && !prev.contains(c)) || (prev.contains(c) && Some(got) == free_dedup_name(
        id,
        c,
        now,
        0,
        (now.len() + 1) as nat,
    ))
}

proof fn lemma_free_name_form(id: Seq<char>, name: Seq<char>, taken: Seq<Seq<char>>, i: nat, fuel: nat)
    ensures
        free_dedup_name(id, name, taken, i, fuel) matches Some(n) ==> exists|j: nat|
            n == dedup_name(id, name, j),
    decreases fuel,
{
    if fuel > 0 && taken.contains(dedup_name(id, name, i)) {
        lemma_free_name_form(id, name, taken, i + 1, (fuel - 1) as nat);
    }
}

/// Models the class loaders of a run: the application's own loader first, with the classes
/// `main_classes`, then one loader per code loading of `dyn_code_load`, in order, with the
/// classes `loaded_classes` of the same position. A loaded class whose name is already defined
/// (by the application or by an earlier loading) is renamed with
/// [`ClassLoader::rename_classdef`]. Returns the loaders and the original names of the renamed
/// classes. The merged image holds each class name once.
pub fn model_class_loaders(
    main_classes: &Vec<String>,
    apk_cl_id: &Option<String>,
    dyn_code_load: &Vec<DynamicCodeLoadingData>,
    loaded_classes: &Vec<Vec<String>>,
) -> (r: Result<(Vec<ClassLoader>, Vec<String>), LoaderError>)
    requires
        loaded_classes@.len() == dyn_code_load@.len(),
        strs(main_classes@).no_duplicates(),
        forall|b: int| 0 <= b < loaded_classes@.len() ==> strs(#[trigger] loaded_classes@[b]@).no_duplicates(),
    ensures
        r matches Ok((ls, _)) ==> {
            &&& all_classes(ls@).no_duplicates()
            &&& ls@.len() == dyn_code_load@.len() + 1
            &&& ls@[0].id@ == main_id(*apk_cl_id)
            &&& ls@[0].parent is None
            &&& forall|k: int|
                0 <= k < dyn_code_load@.len() ==> (#[trigger] ls@[k + 1]).id == dyn_code_load@[k].classloader
                    && ls@[k + 1].parent == dyn_code_load@[k].classloader_parent
            &&& strs(ls@[0].classes@) == strs(main_classes@)
            &&& forall|k: int|
                0 <= k < dyn_code_load@.len() ==> renamed_where_taken(
                    all_classes(ls@.take(k + 1)),
                    dyn_code_load@[k].classloader@,
                    strs(loaded_classes@[k]@),
                    strs((#[trigger] ls@[k + 1]).classes@),
                )
        },
        loader_ids_distinct(main_id(*apk_cl_id), dyn_code_load@) && main_classes@.len() + sum_lens(
            loaded_classes@,
        ) < usize::MAX ==> r is Ok,
{
    let main_name = match apk_cl_id {
        Some(id) => id.clone(),
        None => String::from_str("MAIN"),
    };
    let mut taken = copy_names(main_classes);
    let main = ClassLoader {
        id: main_name,
        parent: None,
        class: DexType::class("java/lang/Boolean", true),
        classes: copy_names(main_classes),
        renamed_classes: Vec::new(),
    };
    let ghost main_names = strs(main.classes@);
    let mut loaders: Vec<ClassLoader> = vec![main];
    let mut redefined: Vec<String> = Vec::new();
    proof {
        assert(loaders@.len() == 1);
        assert(loaders@.drop_last() =~= Seq::<ClassLoader>::empty());
        assert(all_classes(loaders@.drop_last()) =~= Seq::<Seq<char>>::empty());
        assert(strs(loaders@.last().classes@) == main_names);
        assert(all_classes(loaders@) =~= strs(taken@));
    }
    let mut b: usize = 0;
    while b < dyn_code_load.len()
        invariant
            b <= dyn_code_load@.len(),
            loaded_classes@.len() == dyn_code_load@.len(),
            forall|x: int| 0 <= x < loaded_classes@.len() ==> strs(#[trigger] loaded_classes@[x]@).no_duplicates(),
            strs(taken@) == all_classes(loaders@),
            strs(taken@).no_duplicates(),
            loaders@.len() == b + 1,
            loaders@[0].id@ == main_id(*apk_cl_id),
            loaders@[0].parent is None,
            forall|k: int|
                0 <= k < b ==> (#[trigger] loaders@[k + 1]).id == dyn_code_load@[k].classloader
                    && loaders@[k + 1].parent == dyn_code_load@[k].classloader_parent,
            strs(loaders@[0].classes@) == strs(main_classes@),
            forall|k: int|
                0 <= k < b ==> renamed_where_taken(
                    all_classes(loaders@.take(k + 1)),
                    dyn_code_load@[k].classloader@,
                    strs(loaded_classes@[k]@),
                    strs((#[trigger] loaders@[k + 1]).classes@),
                ),
            taken@.len() == main_classes@.len() + sum_lens(loaded_classes@.take(b as int)),
        decreases dyn_code_load@.len() - b,
    {
        let data = &dyn_code_load[b];
        let mut k: usize = 0;
        while k < loaders.len()
            invariant
                k <= loaders@.len(),
                b < dyn_code_load@.len(),
                loaders@.len() == b + 1,
                loaders@[0].id@ == main_id(*apk_cl_id),
                forall|j: int|
                    0 <= j < b ==> (#[trigger] loaders@[j + 1]).id == dyn_code_load@[j].classloader,
                *data == dyn_code_load@[b as int],
            decreases loaders@.len() - k,
        {
            if loaders[k].id.eq(&data.classloader) {
                proof {
                    if k > 0 {
                        assert(loaders@[(k - 1) + 1].id == dyn_code_load@[k - 1].classloader);
                        assert(dyn_code_load@[k - 1].classloader@ == dyn_code_load@[b as int].classloader@);
                    }
                }
                return Err(LoaderError::DuplicateLoader);
            }
            k += 1;
        }
        proof {
            lemma_sum_lens_prefix(loaded_classes@, b as int + 1);
            assert(loaded_classes@.take(b as int + 1).drop_last() =~= loaded_classes@.take(b as int));
        }
        let cs = &loaded_classes[b];
        let mut loader = ClassLoader {
            id: data.classloader.clone(),
            parent: match &data.classloader_parent {
                Some(p) => Some(p.clone()),
                None => None,
            },
            class: data.classloader_class.duplicate(),
            classes: copy_names(cs),
            renamed_classes: Vec::new(),
        };
        proof {
            assert(forall|p: int| 0 <= p < cs@.len() ==> #[trigger] loader.classes@[p]@ == cs@[p]@);
        }
        let mut idx: usize = 0;
        while idx < cs.len()
            invariant
                idx <= cs@.len(),
                strs(taken@).no_duplicates(),
                strs(loader.classes@).no_duplicates(),
                loader.classes@.len() == cs@.len(),
                loader.id == data.classloader,
                loader.parent == data.classloader_parent,
                forall|p: int| 0 <= p < idx ==> !strs(taken@).contains(#[trigger] loader.classes@[p]@),
                forall|p: int| idx <= p < cs@.len() ==> #[trigger] loader.classes@[p]@ == cs@[p]@,
                forall|p: int|
                    0 <= p < idx ==> #[trigger] name_kept_or_renamed(
                        strs(taken@),
                        data.classloader@,
                        cs@[p]@,
                        loader.classes@[p]@,
                        strs(taken@) + strs(loader.classes@).take(p) + strs(cs@).skip(p),
                    ),
                taken@.len() + cs@.len() < usize::MAX || !(main_classes@.len() + sum_lens(
                    loaded_classes@,
                ) < usize::MAX),
            decreases cs@.len() - idx,
        {
            let name = &cs[idx];
            let ghost start_classes = loader.classes@;
            if contains_name(&taken, name) {
                let mut combined = copy_names(&taken);
                append_names(&mut combined, &loader.classes);
                let ghost before = loader.classes@;
                proof {
                    assert(strs(loader.classes@)[idx as int] == name@);
                }
                match loader.rename_classdef(name, &combined) {
                    Ok(n) => {
                        proof {
                            lemma_free_name_form(
                                loader.id@,
                                name@,
                                strs(combined@),
                                0,
                                (combined@.len() + 1) as nat,
                            );
                            lemma_free_name_fresh(
                                loader.id@,
                                name@,
                                strs(combined@),
                                0,
                                (combined@.len() + 1) as nat,
                            );
                            let p = choose|p: int|
                                0 <= p < before.len() && before[p]@ == name@
                                    && loader.classes@ == before.update(p, n);
                            assert(strs(before)[p] == strs(before)[idx as int]);
                            assert(p == idx);
                            assert(!strs(combined@).contains(n@));
                            assert forall|q: int| 0 <= q < strs(before).len() implies strs(before)[q] != n@ by {
                                assert(strs(combined@)[strs(taken@).len() + q] == strs(before)[q]);
                            }
                            assert forall|q: int| 0 <= q < strs(taken@).len() implies strs(taken@)[q] != n@ by {
                                assert(strs(combined@)[q] == strs(taken@)[q]);
                            }
                            assert(strs(loader.classes@) =~= strs(before).update(idx as int, n@));
                            assert forall|q: int| 0 <= q < idx implies loader.classes@[q] == before[q] by {}
                            assert(loader.classes@[idx as int]@ == n@);
                            assert(strs(before).skip(idx as int) =~= strs(cs@).skip(idx as int));
                            assert(strs(loader.classes@).take(idx as int) =~= strs(before).take(idx as int));
                            assert(strs(before) =~= strs(before).take(idx as int) + strs(before).skip(idx as int));
                            assert(strs(combined@) =~= strs(taken@) + strs(loader.classes@).take(idx as int)
                                + strs(cs@).skip(idx as int));
                            assert(strs(taken@).contains(cs@[idx as int]@));
                        }
                    },
                    Err(e) => {
                        return Err(e);
                    },
                }
                if !contains_name(&redefined, name) {
                    redefined.push(name.clone());
                }
            } else {
                assert(loader.classes@[idx as int]@ == cs@[idx as int]@);
                assert(!strs(taken@).contains(cs@[idx as int]@));
            }
            assert forall|p: int| 0 <= p < idx + 1 implies #[trigger] name_kept_or_renamed(
                strs(taken@),
                data.classloader@,
                cs@[p]@,
                loader.classes@[p]@,
                strs(taken@) + strs(loader.classes@).take(p) + strs(cs@).skip(p),
            ) by {
                if p < idx {
                    assert(loader.classes@[p] == start_classes[p]);
                    assert(strs(loader.classes@).take(p) =~= strs(start_classes).take(p));
                    assert(name_kept_or_renamed(
                        strs(taken@),
                        data.classloader@,
                        cs@[p]@,
                        start_classes[p]@,
                        strs(taken@) + strs(start_classes).take(p) + strs(cs@).skip(p),
                    ));
                }
            }
            idx += 1;
        }
        let ghost prev_names = strs(taken@);
        let ghost loader_ghost = loader;
        let ghost old_taken_len = taken@.len();
        append_names(&mut taken, &loader.classes);
        proof {
            assert(strs(taken@).len() == taken@.len());
            assert(taken@.len() == old_taken_len + loader.classes@.len());
            assert(loaded_classes@.take(b as int + 1).last() == loaded_classes@[b as int]);
            assert(sum_lens(loaded_classes@.take(b as int + 1)) == sum_lens(loaded_classes@.take(
                b as int,
            )) + loaded_classes@[b as int]@.len());
        }
        let ghost old_loaders = loaders@;
        loaders.push(loader);
        proof {
            assert(loaders@.drop_last() =~= old_loaders);
            assert(loaders@.take(b as int + 1) =~= old_loaders);
            assert forall|k: int| 0 <= k < b + 1 implies renamed_where_taken(
                all_classes(loaders@.take(k + 1)),
                dyn_code_load@[k].classloader@,
                strs(loaded_classes@[k]@),
                strs((#[trigger] loaders@[k + 1]).classes@),
            ) by {
                if k < b {
                    assert(loaders@[k + 1] == old_loaders[k + 1]);
                    assert(loaders@.take(k + 1) =~= old_loaders.take(k + 1));
                } else {
                    let got = strs(loaders@[k + 1].classes@);
                    let cs2 = strs(loaded_classes@[k]@);
                    assert(prev_names == all_classes(loaders@.take(k + 1)));
                    assert(got.len() == cs2.len());
                    assert(loaders@[k + 1] == loader_ghost);
                    assert forall|p: int| 0 <= p < cs2.len() implies #[trigger] name_kept_or_renamed(
                        prev_names,
                        dyn_code_load@[k].classloader@,
                        cs2[p],
                        got[p],
                        prev_names + got.take(p) + cs2.skip(p),
                    ) by {
                        assert(got[p] == loaders@[k + 1].classes@[p]@);
                        assert(cs2[p] == loaded_classes@[k]@[p]@);
                    }
                }
            }
            assert(loaders@[0] == old_loaders[0]);
        }
        b += 1;
    }
    Ok((loaders, redefined))
}

/// The new name that the first renaming of `t` in `s` gives.
pub open spec fn lookup_rename(s: Seq<(String, String)>, t: Seq<char>) -> Option<Seq<char>>
    decreases s.len(),
{
    if s.len() == 0 {
        None
    } else if lookup_rename(s.drop_last(), t) is Some {
        lookup_rename(s.drop_last(), t)
    } else if s.last().0@ == t {
        Some(s.last().1@)
    } else {
        None
    }
}

fn lookup_rename_exec(s: &Vec<(String, String)>, t: &String) -> (r: Option<String>)
    ensures
        match r {
            Some(n) => lookup_rename(s@, t@) == Some(n@),
            None => lookup_rename(s@, t@) is None,
        },
{
    let mut i: usize = 0;
    while i < s.len()
        invariant
            i <= s@.len(),
            lookup_rename(s@.take(i as int), t@) is None,
        decreases s@.len() - i,
    {
        proof {
            assert(s@.take(i as int + 1).drop_last() =~= s@.take(i as int));
        }
        if s[i].0.eq(t) {
            proof {
                lemma_lookup_stable(s@, t@, i as int + 1);
            }
            return Some(s[i].1.clone());
        }
        i += 1;
    }
    assert(s@.take(i as int) =~= s@);
    None
}

proof fn lemma_lookup_stable(s: Seq<(String, String)>, t: Seq<char>, m: int)
    requires
        0 <= m <= s.len(),
        lookup_rename(s.take(m), t) is Some,
    ensures
        lookup_rename(s, t) == lookup_rename(s.take(m), t),
    decreases s.len() - m,
{
    if m < s.len() {
        assert(s.take(m + 1).drop_last() =~= s.take(m));
        lemma_lookup_stable(s, t, m + 1);
    } else {
        assert(s.take(m) =~= s);
    }
}

/// The position of the first loader with the id `id`, or `-1`.
pub open spec fn loader_index(ls: Seq<ClassLoader>, id: Seq<char>) -> int
    decreases ls.len(),
{
    if ls.len() == 0 {
        -1
    } else if loader_index(ls.drop_last(), id) >= 0 {
        loader_index(ls.drop_last(), id)
    } else if ls.last().id@ == id {
        ls.len() - 1
    } else {
        -1
    }
}

proof fn lemma_loader_index(ls: Seq<ClassLoader>, id: Seq<char>)
    ensures
        -1 <= loader_index(ls, id) < ls.len(),
        loader_index(ls, id) >= 0 ==> ls[loader_index(ls, id)].id@ == id,
    decreases ls.len(),
{
    if ls.len() > 0 {
        lemma_loader_index(ls.drop_last(), id);
    }
}

fn loader_index_exec(ls: &Vec<ClassLoader>, id: &String) -> (r: Option<usize>)
    ensures
        match r {
            Some(k) => loader_index(ls@, id@) == k as int,
            None => loader_index(ls@, id@) == -1,
        },
{
    let mut i: usize = 0;
    while i < ls.len()
        invariant
            i <= ls@.len(),
            loader_index(ls@.take(i as int), id@) == -1,
        decreases ls@.len() - i,
    {
        proof {
            assert(ls@.take(i as int + 1).drop_last() =~= ls@.take(i as int));
        }
        if ls[i].id.eq(id) {
            proof {
                lemma_index_stable(ls@, id@, i as int + 1);
            }
            return Some(i);
        }
        i += 1;
    }
    assert(ls@.take(i as int) =~= ls@);
    None
}

proof fn lemma_index_stable(ls: Seq<ClassLoader>, id: Seq<char>, m: int)
    requires
        0 <= m <= ls.len(),
        loader_index(ls.take(m), id) >= 0,
    ensures
        loader_index(ls, id) == loader_index(ls.take(m), id),
    decreases ls.len() - m,
{
    if m < ls.len() {
        assert(ls.take(m + 1).drop_last() =~= ls.take(m));
        lemma_index_stable(ls, id, m + 1);
    } else {
        assert(ls.take(m) =~= ls);
    }
}

/// Loaders of the class `dalvik.system.DelegateLastClassLoader` look at their own classes
/// before their parent's.
pub open spec fn is_delegate_last(t: TyV) -> bool {
    t matches TyV::Class { name, .. } && name == "dalvik/system/DelegateLastClassLoader"@
}

fn is_delegate_last_exec(t: &DexType) -> (r: bool)
    ensures
        r == is_delegate_last(t@),
{
    match t {
        DexType::Class { name, .. } => {
            let dl = String::from_str("dalvik/system/DelegateLastClassLoader");
            name.eq(&dl)
        },
        _ => false,
    }
}

/// The name a loader itself gives to `t`: its new name if the loader renamed it, `t` if the
/// loader defines it.
pub open spec fn own_name(l: ClassLoader, t: Seq<char>) -> Option<Seq<char>> {
    if lookup_rename(l.renamed_classes@, t) is Some {
        lookup_rename(l.renamed_classes@, t)
    } else if strs(l.classes@).contains(t) {
        Some(t)
    } else {
        None
    }
}

/// The name that a reference to the class `t` from the code of the loader `k` resolves to.
/// Platform classes resolve to themselves. A delegate-last loader answers from its own
/// classes first, then asks its parent; any other loader asks its parent first, then answers
/// from its own classes. `fuel` bounds the length of the chain of parents.
pub open spec fn resolve(ls: Seq<ClassLoader>, k: int, t: Seq<char>, platform: bool, fuel: nat) -> Option<
    Seq<char>,
>
    decreases fuel,
{
    if platform {
        Some(t)
    } else if fuel == 0 || k < 0 || k >= ls.len() {
        None
    } else {
        let l = ls[k];
        let dl = is_delegate_last(l.class@);
        let own = own_name(l, t);
        let from_parent = match l.parent {
            Some(p) => if loader_index(ls, p@) >= 0 {
                resolve(ls, loader_index(ls, p@), t, platform, (fuel - 1) as nat)
            } else {
                None
            },
            None => None,
        };
        if dl && own is Some {
            own
        } else if from_parent is Some {
            from_parent
        } else if dl {
            None
        } else {
            own
        }
    }
}

fn own_name_exec(l: &ClassLoader, t: &String) -> (r: Option<String>)
    ensures
        match r {
            Some(n) => own_name(*l, t@) == Some(n@),
            None => own_name(*l, t@) is None,
        },
{
    match lookup_rename_exec(&l.renamed_classes, t) {
        Some(n) => Some(n),
        None => if contains_name(&l.classes, t) {
            Some(t.clone())
        } else {
            None
        },
    }
}

impl ClassLoader {
    /// The name that a reference to the class `ty`, from code of the loader at position `k`
    /// of `class_loaders`, resolves to after renaming, or `None` when no loader of the chain
    /// defines it.
    pub fn get_ref_new_name(
        class_loaders: &Vec<ClassLoader>,
        k: usize,
        ty: &String,
        is_platform: bool,
        fuel: usize,
    ) -> (r: Option<String>)
        ensures
            match r {
                Some(n) => resolve(class_loaders@, k as int, ty@, is_platform, fuel as nat) == Some(n@),
                None => resolve(class_loaders@, k as int, ty@, is_platform, fuel as nat) is None,
            },
        decreases fuel,
    {
        if is_platform {
            return Some(ty.clone());
        }
        if fuel == 0 || k >= class_loaders.len() {
            return None;
        }
        let l = &class_loaders[k];
        let dl = is_delegate_last_exec(&l.class);
        let own = own_name_exec(l, ty);
        if dl && own.is_some() {
            return own;
        }
        let from_parent = match &l.parent {
            Some(p) => match loader_index_exec(class_loaders, p) {
                Some(pi) => ClassLoader::get_ref_new_name(class_loaders, pi, ty, is_platform, fuel - 1),
                None => None,
            },
            None => None,
        };
        if from_parent.is_some() {
            return from_parent;
        }
        if dl {
            return None;
        }
        own
    }

    /// For each type of `tys`, the name references to it from the code of the loader at
    /// position `k` resolve to, or the type itself when none does. `platform` says which of
    /// `tys` are platform classes.
    pub fn get_ref_new_names(
        class_loaders: &Vec<ClassLoader>,
        k: usize,
        tys: &Vec<String>,
        platform: &Vec<bool>,
    ) -> (r: Vec<(String, String)>)
        requires
            platform@.len() == tys@.len(),
        ensures
            r@.len() == tys@.len(),
            forall|i: int|
                0 <= i < tys@.len() ==> (#[trigger] r@[i]).0@ == tys@[i]@ && r@[i].1@ == match resolve(
                    class_loaders@,
                    k as int,
                    tys@[i]@,
                    platform@[i],
                    class_loaders@.len() as nat,
                ) {
                    Some(n) => n,
                    None => tys@[i]@,
                },
    {
        let mut r: Vec<(String, String)> = Vec::new();
        let mut i: usize = 0;
        while i < tys.len()
            invariant
                i <= tys@.len(),
                platform@.len() == tys@.len(),
                r@.len() == i,
                forall|j: int|
                    0 <= j < i ==> (#[trigger] r@[j]).0@ == tys@[j]@ && r@[j].1@ == match resolve(
                        class_loaders@,
                        k as int,
                        tys@[j]@,
                        platform@[j],
                        class_loaders@.len() as nat,
                    ) {
                        Some(n) => n,
                        None => tys@[j]@,
                    },
            decreases tys@.len() - i,
        {
            let n = match ClassLoader::get_ref_new_name(class_loaders, k, &tys[i], platform[i], class_loaders.len()) {
                Some(n) => n,
                None => tys[i].clone(),
            };
            r.push((tys[i].clone(), n));
            i += 1;
        }
        r
    }
}

/// A type with every class that `map` renames replaced by its new name.
pub open spec fn rename_ty(t: TyV, map: Seq<(String, String)>) -> TyV
    decreases t,
{
    match t {
        TyV::Class { name, platform } => match lookup_rename(map, name) {
            Some(n) => TyV::Class { name: n, platform },
            None => t,
        },
        TyV::Array { elem } => TyV::Array { elem: Box::new(rename_ty(*elem, map)) },
        _ => t,
    }
}

/// A method identifier with its class and the types of its prototype renamed by `map`.
pub open spec fn rename_method_v(m: MethodV, map: Seq<(String, String)>) -> MethodV {
    MethodV {
        class_: rename_ty(m.class_, map),
        name: m.name,
        params: m.params.map_values(|t: TyV| rename_ty(t, map)),
        ret: rename_ty(m.ret, map),
    }
}

/// Renames the classes of a type.
pub fn rename_type(t: &DexType, map: &Vec<(String, String)>) -> (r: DexType)
    ensures
        r@ == rename_ty(t@, map@),
    decreases t,
{
    match t {
        DexType::Class { name, platform } => match lookup_rename_exec(map, name) {
            Some(n) => DexType::Class { name: n, platform: *platform },
            None => t.duplicate(),
        },
        DexType::Array { elem } => {
            let e = rename_type(&**elem, map);
            DexType::Array { elem: Box::new(e) }
        },
        _ => t.duplicate(),
    }
}

/// Renames the classes of a method identifier.
pub fn rename_method(m: &IdMethod, map: &Vec<(String, String)>) -> (r: IdMethod)
    ensures
        r@ == rename_method_v(m@, map@),
{
    let mut params: Vec<DexType> = Vec::new();
    let mut i: usize = 0;
    while i < m.params.len()
        invariant
            i <= m.params@.len(),
            params@.len() == i,
            forall|k: int| 0 <= k < i ==> #[trigger] params@[k]@ == rename_ty(m.params@[k]@, map@),
        decreases m.params@.len() - i,
    {
        params.push(rename_type(&m.params[i], map));
        i += 1;
    }
    let r = IdMethod {
        class_: rename_type(&m.class_, map),
        name: m.name.clone(),
        params,
        ret: rename_type(&m.ret, map),
    };
    assert(r@.params =~= m@.params.map_values(|t: TyV| rename_ty(t, map@)));
    r
}

/// The renaming map of the loader `id`, if `renamers` has one.
pub open spec fn renamer_of(renamers: Seq<(String, Vec<(String, String)>)>, id: Seq<char>) -> Option<
    Seq<(String, String)>,
>
    decreases renamers.len(),
{
    if renamers.len() == 0 {
        None
    } else if renamer_of(renamers.drop_last(), id) is Some {
        renamer_of(renamers.drop_last(), id)
    } else if renamers.last().0@ == id {
        Some(renamers.last().1@)
    } else {
        None
    }
}

proof fn lemma_renamer_stable(s: Seq<(String, Vec<(String, String)>)>, id: Seq<char>, m: int)
    requires
        0 <= m <= s.len(),
        renamer_of(s.take(m), id) is Some,
    ensures
        renamer_of(s, id) == renamer_of(s.take(m), id),
    decreases s.len() - m,
{
    if m < s.len() {
        assert(s.take(m + 1).drop_last() =~= s.take(m));
        lemma_renamer_stable(s, id, m + 1);
    } else {
        assert(s.take(m) =~= s);
    }
}

fn renamer_index(renamers: &Vec<(String, Vec<(String, String)>)>, id: &String) -> (r: Option<usize>)
    ensures
        match r {
            Some(k) => k < renamers@.len() && renamer_of(renamers@, id@) == Some(renamers@[k as int].1@),
            None => renamer_of(renamers@, id@) is None,
        },
{
    let mut i: usize = 0;
    while i < renamers.len()
        invariant
            i <= renamers@.len(),
            renamer_of(renamers@.take(i as int), id@) is None,
        decreases renamers@.len() - i,
    {
        proof {
            assert(renamers@.take(i as int + 1).drop_last() =~= renamers@.take(i as int));
        }
        if renamers[i].0.eq(id) {
            proof {
                lemma_renamer_stable(renamers@, id@, i as int + 1);
            }
            return Some(i);
        }
        i += 1;
    }
    assert(renamers@.take(i as int) =~= renamers@);
    None
}

/// The renamed method: the method renamed by the map of its loader when there is one,
/// otherwise what was recorded before.
pub open spec fn renamed_for(
    renamers: Seq<(String, Vec<(String, String)>)>,
    cl_id: Seq<char>,
    m: MethodV,
    before: Option<MethodV>,
) -> Option<MethodV> {
    match renamer_of(renamers, cl_id) {
        Some(map) => Some(rename_method_v(m, map)),
        None => before,
    }
}

fn renamed_or_keep(
    renamers: &Vec<(String, Vec<(String, String)>)>,
    cl_id: &String,
    m: &IdMethod,
    before: &Option<IdMethod>,
) -> (r: Option<IdMethod>)
    ensures
        crate::runtime_data::opt_method(r) == renamed_for(
            renamers@,
            cl_id@,
            m@,
            crate::runtime_data::opt_method(*before),
        ),
{
    match renamer_index(renamers, cl_id) {
        Some(k) => Some(rename_method(m, &renamers[k].1)),
        None => match before {
            Some(b) => Some(b.duplicate()),
            None => None,
        },
    }
}

/// Records in the trace the names under which the reflective targets and their callers are
/// called statically once the classes are renamed: each record whose loader has a renaming
/// map in `renamers` (loader id, map) gets its renamed method (or constructor) and renamed
/// caller.
pub fn rename_runtime_data(
    runtime_data: &mut RuntimeData,
    renamers: &Vec<(String, Vec<(String, String)>)>,
)
    ensures
        final(runtime_data).invoke_data@.len() == old(runtime_data).invoke_data@.len(),
        forall|i: int|
            0 <= i < old(runtime_data).invoke_data@.len() ==> {
                let d0 = #[trigger] old(runtime_data).invoke_data@[i];
                let d1 = final(runtime_data).invoke_data@[i];
                &&& d1.method@ == d0.method@
                &&& d1.caller_method@ == d0.caller_method@
                &&& d1.addr == d0.addr
                &&& d1.is_static == d0.is_static
                &&& d1.method_cl_id@ == d0.method_cl_id@
                &&& d1.caller_cl_id@ == d0.caller_cl_id@
                &&& crate::runtime_data::opt_method(d1.renamed_method) == renamed_for(
                    renamers@,
                    d0.method_cl_id@,
                    d0.method@,
                    crate::runtime_data::opt_method(d0.renamed_method),
                )
                &&& crate::runtime_data::opt_method(d1.renamed_caller_method) == renamed_for(
                    renamers@,
                    d0.caller_cl_id@,
                    d0.caller_method@,
                    crate::runtime_data::opt_method(d0.renamed_caller_method),
                )
            },
        final(runtime_data).class_new_inst_data@.len() == old(runtime_data).class_new_inst_data@.len(),
        forall|i: int|
            0 <= i < old(runtime_data).class_new_inst_data@.len() ==> {
                let d0 = #[trigger] old(runtime_data).class_new_inst_data@[i];
                let d1 = final(runtime_data).class_new_inst_data@[i];
                &&& d1.constructor@ == d0.constructor@
                &&& d1.caller_method@ == d0.caller_method@
                &&& d1.addr == d0.addr
                &&& crate::runtime_data::opt_method(d1.renamed_constructor) == renamed_for(
                    renamers@,
                    d0.constructor_cl_id@,
                    d0.constructor@,
                    crate::runtime_data::opt_method(d0.renamed_constructor),
                )
            },
        final(runtime_data).cnstr_new_inst_data@.len() == old(runtime_data).cnstr_new_inst_data@.len(),
        forall|i: int|
            0 <= i < old(runtime_data).cnstr_new_inst_data@.len() ==> {
                let d0 = #[trigger] old(runtime_data).cnstr_new_inst_data@[i];
                let d1 = final(runtime_data).cnstr_new_inst_data@[i];
                &&& d1.constructor@ == d0.constructor@
                &&& d1.caller_method@ == d0.caller_method@
                &&& d1.addr == d0.addr
                &&& crate::runtime_data::opt_method(d1.renamed_constructor) == renamed_for(
                    renamers@,
                    d0.constructor_cl_id@,
                    d0.constructor@,
                    crate::runtime_data::opt_method(d0.renamed_constructor),
                )
            },
{
    let mut invoke: Vec<ReflectionInvokeData> = Vec::new();
    let mut i: usize = 0;
    while i < runtime_data.invoke_data.len()
        invariant
            i <= runtime_data.invoke_data@.len(),
            *runtime_data == *old(runtime_data),
            invoke@.len() == i,
            forall|k: int|
                0 <= k < i ==> {
                    let d0 = runtime_data.invoke_data@[k];
                    let d1 = #[trigger] invoke@[k];
                    &&& d1.method@ == d0.method@
                    &&& d1.caller_method@ == d0.caller_method@
                    &&& d1.addr == d0.addr
                    &&& d1.is_static == d0.is_static
                    &&& d1.method_cl_id@ == d0.method_cl_id@
                    &&& d1.caller_cl_id@ == d0.caller_cl_id@
                    &&& crate::runtime_data::opt_method(d1.renamed_method) == renamed_for(
                        renamers@,
                        d0.method_cl_id@,
                        d0.method@,
                        crate::runtime_data::opt_method(d0.renamed_method),
                    )
                    &&& crate::runtime_data::opt_method(d1.renamed_caller_method) == renamed_for(
                        renamers@,
                        d0.caller_cl_id@,
                        d0.caller_method@,
                        crate::runtime_data::opt_method(d0.renamed_caller_method),
                    )
                },
        decreases runtime_data.invoke_data@.len() - i,
    {
        let d = &runtime_data.invoke_data[i];
        invoke.push(ReflectionInvokeData {
            method: d.method.duplicate(),
            method_cl_id: d.method_cl_id.clone(),
            renamed_method: renamed_or_keep(renamers, &d.method_cl_id, &d.method, &d.renamed_method),
            caller_method: d.caller_method.duplicate(),
            caller_cl_id: d.caller_cl_id.clone(),
            renamed_caller_method: renamed_or_keep(
                renamers,
                &d.caller_cl_id,
                &d.caller_method,
                &d.renamed_caller_method,
            ),
            addr: d.addr,
            is_static: d.is_static,
        });
        i += 1;
    }
    let mut class_new: Vec<ReflectionClassNewInstData> = Vec::new();
    let mut i: usize = 0;
    while i < runtime_data.class_new_inst_data.len()
        invariant
            i <= runtime_data.class_new_inst_data@.len(),
            *runtime_data == *old(runtime_data),
            class_new@.len() == i,
            forall|k: int|
                0 <= k < i ==> {
                    let d0 = runtime_data.class_new_inst_data@[k];
                    let d1 = #[trigger] class_new@[k];
                    &&& d1.constructor@ == d0.constructor@
                    &&& d1.caller_method@ == d0.caller_method@
                    &&& d1.addr == d0.addr
                    &&& crate::runtime_data::opt_method(d1.renamed_constructor) == renamed_for(
                        renamers@,
                        d0.constructor_cl_id@,
                        d0.constructor@,
                        crate::runtime_data::opt_method(d0.renamed_constructor),
                    )
                },
        decreases runtime_data.class_new_inst_data@.len() - i,
    {
        let d = &runtime_data.class_new_inst_data[i];
        class_new.push(ReflectionClassNewInstData {
            constructor: d.constructor.duplicate(),
            constructor_cl_id: d.constructor_cl_id.clone(),
            renamed_constructor: renamed_or_keep(
                renamers,
                &d.constructor_cl_id,
                &d.constructor,
                &d.renamed_constructor,
            ),
            caller_method: d.caller_method.duplicate(),
            caller_cl_id: d.caller_cl_id.clone(),
            renamed_caller_method: renamed_or_keep(
                renamers,
                &d.caller_cl_id,
                &d.caller_method,
                &d.renamed_caller_method,
            ),
            addr: d.addr,
        });
        i += 1;
    }
    let mut cnstr: Vec<ReflectionCnstrNewInstData> = Vec::new();
    let mut i: usize = 0;
    while i < runtime_data.cnstr_new_inst_data.len()
        invariant
            i <= runtime_data.cnstr_new_inst_data@.len(),
            *runtime_data == *old(runtime_data),
            cnstr@.len() == i,
            forall|k: int|
                0 <= k < i ==> {
                    let d0 = runtime_data.cnstr_new_inst_data@[k];
                    let d1 = #[trigger] cnstr@[k];
                    &&& d1.constructor@ == d0.constructor@
                    &&& d1.caller_method@ == d0.caller_method@
                    &&& d1.addr == d0.addr
                    &&& crate::runtime_data::opt_method(d1.renamed_constructor) == renamed_for(
                        renamers@,
                        d0.constructor_cl_id@,
                        d0.constructor@,
                        crate::runtime_data::opt_method(d0.renamed_constructor),
                    )
                },
        decreases runtime_data.cnstr_new_inst_data@.len() - i,
    {
        let d = &runtime_data.cnstr_new_inst_data[i];
        cnstr.push(ReflectionCnstrNewInstData {
            constructor: d.constructor.duplicate(),
            constructor_cl_id: d.constructor_cl_id.clone(),
            renamed_constructor: renamed_or_keep(
                renamers,
                &d.constructor_cl_id,
                &d.constructor,
                &d.renamed_constructor,
            ),
            caller_method: d.caller_method.duplicate(),
            caller_cl_id: d.caller_cl_id.clone(),
            renamed_caller_method: renamed_or_keep(
                renamers,
                &d.caller_cl_id,
                &d.caller_method,
                &d.renamed_caller_method,
            ),
            addr: d.addr,
        });
        i += 1;
    }
    runtime_data.invoke_data = invoke;
    runtime_data.class_new_inst_data = class_new;
    runtime_data.cnstr_new_inst_data = cnstr;
}

} // verus!
