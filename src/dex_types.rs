//! Types and method identifiers of the bytecode, with their mathematical models, and the
//! tables of the platform's boxing and unboxing methods.
use vstd::prelude::*;

verus! {

/// A type of the bytecode. A class is given by its internal name (`java/lang/Object`) and
/// whether it belongs to the platform (the SDK), which no class loader of the application
/// may redefine.
#[derive(Debug)]
pub enum DexType {
    Void,
    Boolean,
    Byte,
    Short,
    Char,
    Int,
    Long,
    Float,
    Double,
    Class { name: String, platform: bool },
    Array { elem: Box<DexType> },
}

/// The model of a [`DexType`].
pub enum TyV {
    Void,
    Boolean,
    Byte,
    Short,
    Char,
    Int,
    Long,
    Float,
    Double,
    Class { name: Seq<char>, platform: bool },
    Array { elem: Box<TyV> },
}

impl View for DexType {
    type V = TyV;

    open spec fn view(&self) -> TyV
        decreases self,
    {
        match self {
            DexType::Void => TyV::Void,
            DexType::Boolean => TyV::Boolean,
            DexType::Byte => TyV::Byte,
            DexType::Short => TyV::Short,
            DexType::Char => TyV::Char,
            DexType::Int => TyV::Int,
            DexType::Long => TyV::Long,
            DexType::Float => TyV::Float,
            DexType::Double => TyV::Double,
            DexType::Class { name, platform } => TyV::Class { name: name@, platform: *platform },
            DexType::Array { elem } => TyV::Array { elem: Box::new((**elem).view()) },
        }
    }
}

proof fn lemma_view_variant(t: DexType)
    ensures
        (t is Void) == (t@ is Void),
        (t is Boolean) == (t@ is Boolean),
        (t is Byte) == (t@ is Byte),
        (t is Short) == (t@ is Short),
        (t is Char) == (t@ is Char),
        (t is Int) == (t@ is Int),
        (t is Long) == (t@ is Long),
        (t is Float) == (t@ is Float),
        (t is Double) == (t@ is Double),
        (t is Class) == (t@ is Class),
        (t is Array) == (t@ is Array),
{
}

impl TyV {
    /// Primitive types other than `void`.
    pub open spec fn is_scalar(self) -> bool {
        match self {
            TyV::Void | TyV::Class { .. } | TyV::Array { .. } => false,
            _ => true,
        }
    }

    /// 64-bit scalars, which take two registers.
    pub open spec fn is_wide(self) -> bool {
        self is Long || self is Double
    }

    /// References: classes and arrays.
    pub open spec fn is_ref(self) -> bool {
        self is Class || self is Array
    }

    /// Number of registers a parameter of this type takes.
    pub open spec fn width(self) -> nat {
        if self.is_wide() {
            2
        } else {
            1
        }
    }
}

/// Total register width of a list of parameter types.
pub open spec fn params_width(ps: Seq<TyV>) -> nat
    decreases ps.len(),
{
    if ps.len() == 0 {
        0
    } else {
        params_width(ps.drop_last()) + ps.last().width()
    }
}

pub proof fn lemma_params_width_bound(ps: Seq<TyV>)
    ensures
        params_width(ps) <= 2 * ps.len(),
    decreases ps.len(),
{
    if ps.len() > 0 {
        lemma_params_width_bound(ps.drop_last());
    }
}

/// A method identifier: declaring class, name and prototype.
#[derive(Debug)]
pub struct IdMethod {
    pub class_: DexType,
    pub name: String,
    pub params: Vec<DexType>,
    pub ret: DexType,
}

/// The model of an [`IdMethod`].
pub struct MethodV {
    pub class_: TyV,
    pub name: Seq<char>,
    pub params: Seq<TyV>,
    pub ret: TyV,
}

impl View for IdMethod {
    type V = MethodV;

    open spec fn view(&self) -> MethodV {
        MethodV {
            class_: self.class_@,
            name: self.name@,
            params: self.params@.map_values(|t: DexType| t@),
            ret: self.ret@,
        }
    }
}

impl DexType {
    /// A copy with the same model.
    pub fn duplicate(&self) -> (r: DexType)
        ensures
            r@ == self@,
        decreases self,
    {
        match self {
            DexType::Void => DexType::Void,
            DexType::Boolean => DexType::Boolean,
            DexType::Byte => DexType::Byte,
            DexType::Short => DexType::Short,
            DexType::Char => DexType::Char,
            DexType::Int => DexType::Int,
            DexType::Long => DexType::Long,
            DexType::Float => DexType::Float,
            DexType::Double => DexType::Double,
            DexType::Class { name, platform } => DexType::Class {
                name: name.clone(),
                platform: *platform,
            },
            DexType::Array { elem } => {
                let e = (**elem).duplicate();
                DexType::Array { elem: Box::new(e) }
            },
        }
    }

    /// Whether two types have the same model.
    pub fn same(&self, o: &DexType) -> (r: bool)
        ensures
            r == (self@ == o@),
        decreases self,
    {
        proof {
            lemma_view_variant(*self);
            lemma_view_variant(*o);
        }
        match self {
            DexType::Void => match o {
                DexType::Void => true,
                _ => false,
            },
            DexType::Boolean => match o {
                DexType::Boolean => true,
                _ => false,
            },
            DexType::Byte => match o {
                DexType::Byte => true,
                _ => false,
            },
            DexType::Short => match o {
                DexType::Short => true,
                _ => false,
            },
            DexType::Char => match o {
                DexType::Char => true,
                _ => false,
            },
            DexType::Int => match o {
                DexType::Int => true,
                _ => false,
            },
            DexType::Long => match o {
                DexType::Long => true,
                _ => false,
            },
            DexType::Float => match o {
                DexType::Float => true,
                _ => false,
            },
            DexType::Double => match o {
                DexType::Double => true,
                _ => false,
            },
            DexType::Class { name: n1, platform: p1 } => match o {
                DexType::Class { name: n2, platform: p2 } => {
                    *p1 == *p2 && n1.eq(n2)
                },
                _ => false,
            },
            DexType::Array { elem: e1 } => match o {
                DexType::Array { elem: e2 } => {
                    let r = (**e1).same(&**e2);
                    assert(self@ == o@ ==> r) by {
                        assert(*(self@->elem) == (**e1)@);
                        assert(*(o@->elem) == (**e2)@);
                    }
                    r
                },
                _ => false,
            },
        }
    }

    pub fn is_wide(&self) -> (r: bool)
        ensures
            r == self@.is_wide(),
    {
        matches!(self, DexType::Long | DexType::Double)
    }

    pub fn is_ref(&self) -> (r: bool)
        ensures
            r == self@.is_ref(),
    {
        matches!(self, DexType::Class { .. } | DexType::Array { .. })
    }

    /// A class type.
    pub fn class(name: &str, platform: bool) -> (r: DexType)
        ensures
            r@ == (TyV::Class { name: name@, platform }),
    {
        DexType::Class { name: String::from_str(name), platform }
    }
}

/// Copy of a list of types with the same models.
pub fn duplicate_types(ts: &Vec<DexType>) -> (r: Vec<DexType>)
    ensures
        r@.map_values(|t: DexType| t@) == ts@.map_values(|t: DexType| t@),
        r@.len() == ts@.len(),
{
    let mut r: Vec<DexType> = Vec::new();
    let mut i: usize = 0;
    while i < ts.len()
        invariant
            i <= ts@.len(),
            r@.len() == i,
            forall|k: int| 0 <= k < i ==> #[trigger] r@[k]@ == ts@[k]@,
        decreases ts@.len() - i,
    {
        r.push(ts[i].duplicate());
        i += 1;
    }
    assert(r@.map_values(|t: DexType| t@) =~= ts@.map_values(|t: DexType| t@));
    r
}

impl IdMethod {
    /// A copy with the same model.
    pub fn duplicate(&self) -> (r: IdMethod)
        ensures
            r@ == self@,
    {
        IdMethod {
            class_: self.class_.duplicate(),
            name: self.name.clone(),
            params: duplicate_types(&self.params),
            ret: self.ret.duplicate(),
        }
    }

    /// Whether two method identifiers have the same model.
    pub fn same(&self, o: &IdMethod) -> (r: bool)
        ensures
            r == (self@ == o@),
    {
        if !self.class_.same(&o.class_) || !(self.name == o.name) || !self.ret.same(&o.ret) {
            return false;
        }
        if self.params.len() != o.params.len() {
            assert(self@.params.len() != o@.params.len());
            return false;
        }
        let mut i: usize = 0;
        while i < self.params.len()
            invariant
                self.params@.len() == o.params@.len(),
                i <= self.params@.len(),
                forall|k: int| 0 <= k < i ==> #[trigger] self.params@[k]@ == o.params@[k]@,
            decreases self.params@.len() - i,
        {
            if !self.params[i].same(&o.params[i]) {
                assert(self@.params[i as int] != o@.params[i as int]);
                return false;
            }
            i += 1;
        }
        assert(self@.params =~= o@.params);
        true
    }

    /// Register width of the parameters (wide scalars count twice).
    pub fn params_width(&self) -> (r: usize)
        requires
            self.params@.len() <= u16::MAX,
        ensures
            r == params_width(self@.params),
    {
        let mut w: usize = 0;
        let mut i: usize = 0;
        proof {
            lemma_params_width_bound(self@.params);
        }
        while i < self.params.len()
            invariant
                i <= self.params@.len(),
                w == params_width(self@.params.take(i as int)),
                params_width(self@.params) <= 2 * self.params@.len(),
                self.params@.len() <= u16::MAX,
            decreases self.params@.len() - i,
        {
            proof {
                assert(self@.params.take(i as int + 1).drop_last() =~= self@.params.take(i as int));
                lemma_params_width_bound(self@.params.take(i as int + 1));
                lemma_params_width_bound(self@.params);
            }
            assert(self@.params.take(i as int + 1).last() == self.params@[i as int]@);
            if self.params[i].is_wide() {
                w = w + 2;
            } else {
                w = w + 1;
            }
            i += 1;
        }
        assert(self@.params.take(i as int) =~= self@.params);
        w
    }
}

/// Internal name of the platform class that boxes a scalar type.
pub open spec fn boxed_name(t: TyV) -> Seq<char> {
    match t {
        TyV::Boolean => "java/lang/Boolean"@,
        TyV::Byte => "java/lang/Byte"@,
        TyV::Short => "java/lang/Short"@,
        TyV::Char => "java/lang/Character"@,
        TyV::Int => "java/lang/Integer"@,
        TyV::Long => "java/lang/Long"@,
        TyV::Float => "java/lang/Float"@,
        _ => "java/lang/Double"@,
    }
}

/// Name of the method of the boxing class that returns the boxed scalar.
pub open spec fn unbox_name(t: TyV) -> Seq<char> {
    match t {
        TyV::Boolean => "booleanValue"@,
        TyV::Byte => "byteValue"@,
        TyV::Short => "shortValue"@,
        TyV::Char => "charValue"@,
        TyV::Int => "intValue"@,
        TyV::Long => "longValue"@,
        TyV::Float => "floatValue"@,
        _ => "doubleValue"@,
    }
}

/// The boxing class of a scalar type.
pub open spec fn boxed_type(t: TyV) -> TyV {
    TyV::Class { name: boxed_name(t), platform: true }
}

/// `Ljava/lang/Integer;->intValue()I` and its kin: the virtual method that unboxes.
pub open spec fn unbox_method(t: TyV) -> MethodV {
    MethodV { class_: boxed_type(t), name: unbox_name(t), params: seq![], ret: t }
}

/// `Ljava/lang/Integer;->valueOf(I)Ljava/lang/Integer;` and its kin: the static method that boxes.
pub open spec fn box_method(t: TyV) -> MethodV {
    MethodV { class_: boxed_type(t), name: "valueOf"@, params: seq![t], ret: boxed_type(t) }
}

/// Boxing a scalar with the emitted `valueOf` call, then unboxing the result with the emitted
/// `intValue`-style call, goes back to the scalar type it started from: the boxing method takes the
/// scalar and returns the boxing class, the unboxing method is declared by that same class,
/// takes nothing but the receiver and returns the scalar type.
pub proof fn lemma_box_unbox_round_trip(t: TyV)
    requires
        t.is_scalar(),
    ensures
        box_method(t).params == seq![t],
        box_method(t).ret == unbox_method(t).class_,
        unbox_method(t).params.len() == 0,
        unbox_method(t).ret == t,
        box_method(t).ret == boxed_type(t),
{
}

/// Error of the scalar tables: the type is not a scalar.
#[derive(Debug, PartialEq, Eq, Structural)]
pub struct NotScalar;

fn boxed_class_name(t: &DexType) -> (r: Result<&'static str, NotScalar>)
    ensures
        r is Ok <==> t@.is_scalar(),
        r matches Ok(n) ==> n@ == boxed_name(t@),
{
    match t {
        DexType::Boolean => Ok("java/lang/Boolean"),
        DexType::Byte => Ok("java/lang/Byte"),
        DexType::Short => Ok("java/lang/Short"),
        DexType::Char => Ok("java/lang/Character"),
        DexType::Int => Ok("java/lang/Integer"),
        DexType::Long => Ok("java/lang/Long"),
        DexType::Float => Ok("java/lang/Float"),
        DexType::Double => Ok("java/lang/Double"),
        _ => Err(NotScalar),
    }
}

/// The boxing class of a scalar type (`java.lang.Integer` for `int`).
pub fn get_obj_of_scalar(scalar_ty: &DexType) -> (r: Result<DexType, NotScalar>)
    ensures
        r is Ok <==> scalar_ty@.is_scalar(),
        r matches Ok(c) ==> c@ == boxed_type(scalar_ty@),
{
    let n = boxed_class_name(scalar_ty)?;
    Ok(DexType::class(n, true))
}

/// The method that unboxes an object into its scalar (`Ljava/lang/Integer;->intValue()I`).
pub fn get_obj_to_scalar_method(scalar_ty: &DexType) -> (r: Result<IdMethod, NotScalar>)
    ensures
        r is Ok <==> scalar_ty@.is_scalar(),
        r matches Ok(m) ==> m@ == unbox_method(scalar_ty@),
{
    let class_ = get_obj_of_scalar(scalar_ty)?;
    let name = match scalar_ty {
        DexType::Boolean => "booleanValue",
        DexType::Byte => "byteValue",
        DexType::Short => "shortValue",
        DexType::Char => "charValue",
        DexType::Int => "intValue",
        DexType::Long => "longValue",
        DexType::Float => "floatValue",
        _ => "doubleValue",
    };
    let m = IdMethod {
        class_,
        name: String::from_str(name),
        params: Vec::new(),
        ret: scalar_ty.duplicate(),
    };
    assert(m@.params =~= seq![]);
    Ok(m)
}

/// The static method that boxes a scalar (`Ljava/lang/Integer;->valueOf(I)Ljava/lang/Integer;`).
pub fn get_scalar_to_obj_method(scalar_ty: &DexType) -> (r: Result<IdMethod, NotScalar>)
    ensures
        r is Ok <==> scalar_ty@.is_scalar(),
        r matches Ok(m) ==> m@ == box_method(scalar_ty@),
{
    let class_ = get_obj_of_scalar(scalar_ty)?;
    let ret = class_.duplicate();
    let mut params: Vec<DexType> = Vec::new();
    params.push(scalar_ty.duplicate());
    let m = IdMethod { class_, name: String::from_str("valueOf"), params, ret };
    assert(m@.params =~= seq![scalar_ty@]);
    Ok(m)
}

/// `Ljava/lang/Object;`
pub open spec fn object_ty() -> TyV {
    TyV::Class { name: "java/lang/Object"@, platform: true }
}

/// A platform class type by its internal name.
pub open spec fn platform_class(name: Seq<char>) -> TyV {
    TyV::Class { name, platform: true }
}

/// `Ljava/lang/reflect/Method;->invoke(Ljava/lang/Object;[Ljava/lang/Object;)Ljava/lang/Object;`
pub open spec fn mth_invoke() -> MethodV {
    MethodV {
        class_: platform_class("java/lang/reflect/Method"@),
        name: "invoke"@,
        params: seq![object_ty(), TyV::Array { elem: Box::new(object_ty()) }],
        ret: object_ty(),
    }
}

/// `Ljava/lang/Class;->newInstance()Ljava/lang/Object;`
pub open spec fn class_new_inst() -> MethodV {
    MethodV {
        class_: platform_class("java/lang/Class"@),
        name: "newInstance"@,
        params: seq![],
        ret: object_ty(),
    }
}

/// `Ljava/lang/reflect/Constructor;->newInstance([Ljava/lang/Object;)Ljava/lang/Object;`
pub open spec fn cnstr_new_inst() -> MethodV {
    MethodV {
        class_: platform_class("java/lang/reflect/Constructor"@),
        name: "newInstance"@,
        params: seq![TyV::Array { elem: Box::new(object_ty()) }],
        ret: object_ty(),
    }
}

/// The type `Ljava/lang/Object;`.
pub fn object_type() -> (r: DexType)
    ensures
        r@ == object_ty(),
{
    DexType::class("java/lang/Object", true)
}

/// A method of a platform class.
pub fn platform_method(class: &str, name: &str, params: Vec<DexType>, ret: DexType) -> (r: IdMethod)
    ensures
        r@ == (MethodV {
            class_: platform_class(class@),
            name: name@,
            params: params@.map_values(|t: DexType| t@),
            ret: ret@,
        }),
{
    IdMethod { class_: DexType::class(class, true), name: String::from_str(name), params, ret }
}

/// `Method.invoke`.
pub fn method_invoke() -> (r: IdMethod)
    ensures
        r@ == mth_invoke(),
{
    let params = vec![object_type(), DexType::Array { elem: Box::new(object_type()) }];
    let r = platform_method("java/lang/reflect/Method", "invoke", params, object_type());
    assert(r@.params =~= mth_invoke().params);
    r
}

/// `Class.newInstance`.
pub fn class_new_instance() -> (r: IdMethod)
    ensures
        r@ == class_new_inst(),
{
    let r = platform_method("java/lang/Class", "newInstance", Vec::new(), object_type());
    assert(r@.params =~= class_new_inst().params);
    r
}

/// `Constructor.newInstance`.
pub fn constructor_new_instance() -> (r: IdMethod)
    ensures
        r@ == cnstr_new_inst(),
{
    let params = vec![DexType::Array { elem: Box::new(object_type()) }];
    let r = platform_method("java/lang/reflect/Constructor", "newInstance", params, object_type());
    assert(r@.params =~= cnstr_new_inst().params);
    r
}

} // verus!
