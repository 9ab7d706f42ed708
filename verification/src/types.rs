use vstd::prelude::*;
use vstd::string::StrSliceExecFns;

verus! {

/// Whether a type is unique (may be used only once) or not.
#[derive(Clone, Copy, Debug, PartialEq, Eq, Structural)]
pub enum UniqFlag {
    NonUniq,
    Uniq,
}

/// Whether a type may be shared (copied freely) or not.
#[derive(Clone, Copy, Debug, PartialEq, Eq, Structural)]
pub enum SharedFlag {
    NonShared,
    Shared,
}

/// Whether a type parameter comes from a declared (defined) type or was introduced by inference.
#[derive(Clone, Copy, Debug, PartialEq, Eq, Structural)]
pub enum DefinedFlag {
    Undefined,
    Defined,
}

/// The uniqueness flag of a type that carries both flags: unique when either is.
pub open spec fn uniq_or(u1: UniqFlag, u2: UniqFlag) -> UniqFlag {
    if u1 == UniqFlag::Uniq || u2 == UniqFlag::Uniq {
        UniqFlag::Uniq
    } else {
        UniqFlag::NonUniq
    }
}

pub fn uniq_flag_or(u1: UniqFlag, u2: UniqFlag) -> (r: UniqFlag)
    ensures
        r == uniq_or(u1, u2),
{
    match (u1, u2) {
        (UniqFlag::NonUniq, UniqFlag::NonUniq) => UniqFlag::NonUniq,
        _ => UniqFlag::Uniq,
    }
}

/// An index of a local type in a table of local types.
#[derive(Clone, Copy, Debug, PartialEq, Eq, Structural)]
pub struct LocalType {
    pub idx: usize,
}

impl LocalType {
    pub fn new(idx: usize) -> (r: LocalType)
        ensures
            r.idx == idx,
    {
        LocalType { idx }
    }

    pub fn index(&self) -> (r: usize)
        ensures
            r == self.idx,
    {
        self.idx
    }
}

/// A trait name that a type parameter can require.
#[derive(Clone, Debug, PartialEq, Eq)]
pub enum TraitName {
    Shared,
    Fun,
    Name(String),
}

/// The mathematical model of a trait name.
pub enum STraitName {
    Shared,
    Fun,
    Name(Seq<char>),
}

impl View for TraitName {
    type V = STraitName;

    open spec fn view(&self) -> STraitName {
        match self {
            TraitName::Shared => STraitName::Shared,
            TraitName::Fun => STraitName::Fun,
            TraitName::Name(s) => STraitName::Name(s@),
        }
    }
}

/// Whether the sequence of characters `x` comes before `y` in lexicographic order, characters
/// compared by their code points.
pub open spec fn chars_lt(x: Seq<char>, y: Seq<char>) -> bool
    decreases x.len(),
{
    if x.len() == 0 {
        y.len() > 0
    } else if y.len() == 0 {
        false
    } else if x[0] != y[0] {
        (x[0] as int) < (y[0] as int)
    } else {
        chars_lt(x.drop_first(), y.drop_first())
    }
}

/// The order of trait names: `shared`, then `fun`, then named traits by their names.
pub open spec fn trait_lt(a: STraitName, b: STraitName) -> bool {
    match (a, b) {
        (STraitName::Shared, STraitName::Shared) => false,
        (STraitName::Shared, _) => true,
        (STraitName::Fun, STraitName::Name(_)) => true,
        (STraitName::Name(x), STraitName::Name(y)) => chars_lt(x, y),
        _ => false,
    }
}

/// Equal characters at `i` leave the order of what follows them as that of the rest.
proof fn lemma_chars_lt_skip(x: Seq<char>, y: Seq<char>, i: int)
    requires
        0 <= i < x.len(),
        i < y.len(),
        x[i] == y[i],
    ensures
        chars_lt(x.skip(i), y.skip(i)) == chars_lt(x.skip(i + 1), y.skip(i + 1)),
{
    assert(x.skip(i).drop_first() =~= x.skip(i + 1));
    assert(y.skip(i).drop_first() =~= y.skip(i + 1));
}

/// `chars_lt` is a strict total order.
pub proof fn lemma_chars_lt_order(x: Seq<char>, y: Seq<char>, z: Seq<char>)
    ensures
        !chars_lt(x, x),
        chars_lt(x, y) ==> !chars_lt(y, x),
        chars_lt(x, y) && chars_lt(y, z) ==> chars_lt(x, z),
        x != y ==> chars_lt(x, y) || chars_lt(y, x),
    decreases x.len(),
{
    if x.len() > 0 {
        if y.len() > 0 && z.len() > 0 {
            lemma_chars_lt_order(x.drop_first(), y.drop_first(), z.drop_first());
        } else if y.len() > 0 {
            lemma_chars_lt_order(x.drop_first(), y.drop_first(), y.drop_first());
        } else {
            lemma_chars_lt_order(x.drop_first(), x.drop_first(), x.drop_first());
        }
        if x != y && y.len() > 0 && x[0] == y[0] {
            if x.drop_first() == y.drop_first() {
                assert(x =~= seq![x[0]] + x.drop_first());
                assert(y =~= seq![y[0]] + y.drop_first());
            }
        }
    } else {
        if y.len() == 0 {
            assert(x =~= y);
        }
    }
}

/// Whether the string `a` comes before `b` (see `chars_lt`).
pub fn string_lt(a: &String, b: &String) -> (r: bool)
    ensures
        r == chars_lt(a@, b@),
{
    let n1 = a.as_str().unicode_len();
    let n2 = b.as_str().unicode_len();
    let mut i: usize = 0;
    proof {
        assert(a@.skip(0) =~= a@);
        assert(b@.skip(0) =~= b@);
    }
    while i < n1 && i < n2
        invariant
            n1 == a@.len(),
            n2 == b@.len(),
            i <= n1,
            i <= n2,
            chars_lt(a@, b@) == chars_lt(a@.skip(i as int), b@.skip(i as int)),
        decreases n1 - i,
    {
        let c1 = a.as_str().get_char(i);
        let c2 = b.as_str().get_char(i);
        if c1 != c2 {
            proof {
                assert(a@.skip(i as int)[0] == c1);
                assert(b@.skip(i as int)[0] == c2);
            }
            return (c1 as u32) < (c2 as u32);
        }
        proof {
            lemma_chars_lt_skip(a@, b@, i as int);
        }
        i = i + 1;
    }
    proof {
        if i == n1 {
            assert(a@.skip(i as int).len() == 0);
        } else {
            assert(b@.skip(i as int).len() == 0);
        }
    }
    i == n1 && i < n2
}

/// `trait_lt` is a strict total order.
pub proof fn lemma_trait_lt_order(a: STraitName, b: STraitName, c: STraitName)
    ensures
        !trait_lt(a, a),
        trait_lt(a, b) ==> !trait_lt(b, a),
        trait_lt(a, b) && trait_lt(b, c) ==> trait_lt(a, c),
        a != b ==> trait_lt(a, b) || trait_lt(b, a),
{
    match (a, b, c) {
        (STraitName::Name(x), STraitName::Name(y), STraitName::Name(z)) => lemma_chars_lt_order(x, y, z),
        (STraitName::Name(x), STraitName::Name(y), _) => lemma_chars_lt_order(x, y, y),
        (STraitName::Name(x), _, _) => lemma_chars_lt_order(x, x, x),
        _ => {},
    }
}

impl TraitName {
    /// Whether this trait name comes before `other` (see `trait_lt`).
    pub fn lt(&self, other: &TraitName) -> (r: bool)
        ensures
            r == trait_lt(self@, other@),
    {
        match (self, other) {
            (TraitName::Shared, TraitName::Shared) => false,
            (TraitName::Shared, _) => true,
            (TraitName::Fun, TraitName::Name(_)) => true,
            (TraitName::Name(x), TraitName::Name(y)) => string_lt(x, y),
            _ => false,
        }
    }

    pub fn duplicate(&self) -> (r: TraitName)
        ensures
            r@ == self@,
    {
        match self {
            TraitName::Shared => TraitName::Shared,
            TraitName::Fun => TraitName::Fun,
            TraitName::Name(s) => TraitName::Name(s.clone()),
        }
    }

    pub fn same(&self, other: &TraitName) -> (r: bool)
        ensures
            r == (self@ == other@),
    {
        match (self, other) {
            (TraitName::Shared, TraitName::Shared) => true,
            (TraitName::Fun, TraitName::Fun) => true,
            (TraitName::Name(s1), TraitName::Name(s2)) => {
                let r = *s1 == *s2;
                proof {
                    if r {
                        assert(self@ == other@);
                    } else {
                        assert(s1@ != s2@);
                    }
                }
                r
            },
            _ => false,
        }
    }
}

/// The name of the head of a type value.
#[derive(Clone, Debug, PartialEq, Eq)]
pub enum TypeValueName {
    Name(String),
    Tuple,
    Fun,
    Array(Option<usize>),
}

/// The mathematical model of the name of a type value's head.
pub enum STypeValueName {
    Name(Seq<char>),
    Tuple,
    Fun,
    Array(Option<usize>),
}

impl View for TypeValueName {
    type V = STypeValueName;

    open spec fn view(&self) -> STypeValueName {
        match self {
            TypeValueName::Name(s) => STypeValueName::Name(s@),
            TypeValueName::Tuple => STypeValueName::Tuple,
            TypeValueName::Fun => STypeValueName::Fun,
            TypeValueName::Array(n) => STypeValueName::Array(*n),
        }
    }
}

impl TypeValueName {
    pub fn duplicate(&self) -> (r: TypeValueName)
        ensures
            r@ == self@,
    {
        match self {
            TypeValueName::Name(s) => TypeValueName::Name(s.clone()),
            TypeValueName::Tuple => TypeValueName::Tuple,
            TypeValueName::Fun => TypeValueName::Fun,
            TypeValueName::Array(n) => TypeValueName::Array(*n),
        }
    }

    pub fn same(&self, other: &TypeValueName) -> (r: bool)
        ensures
            r == (self@ == other@),
    {
        match (self, other) {
            (TypeValueName::Name(s1), TypeValueName::Name(s2)) => {
                let r = *s1 == *s2;
                proof {
                    if !r {
                        assert(s1@ != s2@);
                    }
                }
                r
            },
            (TypeValueName::Tuple, TypeValueName::Tuple) => true,
            (TypeValueName::Fun, TypeValueName::Fun) => true,
            (TypeValueName::Array(n1), TypeValueName::Array(n2)) => {
                match (n1, n2) {
                    (Some(a), Some(b)) => *a == *b,
                    (None, None) => true,
                    _ => false,
                }
            },
            _ => false,
        }
    }
}

/// A type value: a type parameter (a local type) or a named, tuple, function or array type
/// applied to argument type values.
#[derive(Debug, PartialEq, Eq)]
pub enum TypeValue {
    Param(UniqFlag, LocalType),
    Type(UniqFlag, TypeValueName, Vec<TypeValue>),
}

/// The mathematical model of a type value.
pub enum STypeValue {
    Param(UniqFlag, LocalType),
    Type(UniqFlag, STypeValueName, Seq<STypeValue>),
}

pub open spec fn type_value_view(tv: TypeValue) -> STypeValue
    decreases tv,
{
    match tv {
        TypeValue::Param(u, l) => STypeValue::Param(u, l),
        TypeValue::Type(u, n, args) => STypeValue::Type(u, n@, type_values_view(args@)),
    }
}

pub open spec fn type_values_view(s: Seq<TypeValue>) -> Seq<STypeValue>
    decreases s,
{
    if s.len() == 0 {
        Seq::empty()
    } else {
        type_values_view(s.drop_last()).push(type_value_view(s.last()))
    }
}

impl View for TypeValue {
    type V = STypeValue;

    open spec fn view(&self) -> STypeValue {
        type_value_view(*self)
    }
}


pub proof fn lemma_type_values_view(s: Seq<TypeValue>)
    ensures
        type_values_view(s).len() == s.len(),
        forall|i: int| 0 <= i < s.len() ==> #[trigger] type_values_view(s)[i] == s[i]@,
    decreases s.len(),
{
    if s.len() > 0 {
        lemma_type_values_view(s.drop_last());
    }
}

/// Two sequences of type values with equal views have equal views element by element, and back.
pub proof fn lemma_type_values_view_ext(s1: Seq<TypeValue>, s2: Seq<TypeValue>)
    requires
        s1.len() == s2.len(),
        forall|i: int| 0 <= i < s1.len() ==> #[trigger] s1[i]@ == s2[i]@,
    ensures
        type_values_view(s1) == type_values_view(s2),
{
    lemma_type_values_view(s1);
    lemma_type_values_view(s2);
    assert(type_values_view(s1) =~= type_values_view(s2));
}

/// An internal error of the front end: a broken invariant of its tables.
#[derive(Debug)]
pub struct FrontendInternalError(pub String);

pub type FrontendInternalResult<T> = Result<T, FrontendInternalError>;

pub fn internal_error(msg: &str) -> (r: FrontendInternalError)
    ensures
        r.0@ == msg@,
{
    FrontendInternalError(String::from_str(msg))
}

/// The uniqueness flag of a type value.
pub open spec fn stv_uniq(tv: STypeValue) -> UniqFlag {
    match tv {
        STypeValue::Param(u, _) => u,
        STypeValue::Type(u, _, _) => u,
    }
}

/// A type value with its uniqueness flag made unique when `u` is unique.
pub open spec fn stv_with_uniq(tv: STypeValue, u: UniqFlag) -> STypeValue {
    match tv {
        STypeValue::Param(u2, l) => STypeValue::Param(uniq_or(u2, u), l),
        STypeValue::Type(u2, n, args) => STypeValue::Type(uniq_or(u2, u), n, args),
    }
}

impl TypeValue {
    pub fn duplicate(&self) -> (r: TypeValue)
        ensures
            r@ == self@,
        decreases self,
    {
        match self {
            TypeValue::Param(u, l) => TypeValue::Param(*u, *l),
            TypeValue::Type(u, n, args) => {
                let args2 = duplicate_type_values(args);
                TypeValue::Type(*u, n.duplicate(), args2)
            },
        }
    }

    pub fn uniq_flag(&self) -> (r: UniqFlag)
        ensures
            r == stv_uniq(self@),
    {
        match self {
            TypeValue::Param(u, _) => *u,
            TypeValue::Type(u, _, _) => *u,
        }
    }

    /// A copy of this type value that is unique when `u` is unique.
    pub fn with_uniq(&self, u: UniqFlag) -> (r: TypeValue)
        ensures
            r@ == stv_with_uniq(self@, u),
    {
        match self {
            TypeValue::Param(u2, l) => TypeValue::Param(uniq_flag_or(*u2, u), *l),
            TypeValue::Type(u2, n, args) => {
                let args2 = duplicate_type_values(args);
                TypeValue::Type(uniq_flag_or(*u2, u), n.duplicate(), args2)
            },
        }
    }
}

pub fn duplicate_type_values(v: &Vec<TypeValue>) -> (r: Vec<TypeValue>)
    ensures
        type_values_view(r@) == type_values_view(v@),
        r@.len() == v@.len(),
        forall|i: int| 0 <= i < v@.len() ==> #[trigger] r@[i]@ == v@[i]@,
    decreases v,
{
    let mut r: Vec<TypeValue> = Vec::new();
    let mut i: usize = 0;
    while i < v.len()
        invariant
            i <= v@.len(),
            r@.len() == i,
            forall|j: int| 0 <= j < i ==> #[trigger] r@[j]@ == v@[j]@,
        decreases v@.len() - i,
    {
        proof {
            vstd::std_specs::vec::axiom_vec_index_decreases(*v, i as int);
        }
        let x = v[i].duplicate();
        r.push(x);
        i = i + 1;
    }
    proof {
        lemma_type_values_view_ext(r@, v@);
    }
    r
}

} // verus!
