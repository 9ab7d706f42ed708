use vstd::prelude::*;
use crate::types::{STypeValue, STypeValueName, SharedFlag, TypeValue, TypeValueName};

verus! {

/// The name by which implementations of traits are found: a named type, a tuple or function
/// type of some arity, or an array type with or without a length.
#[derive(Clone, Debug, PartialEq, Eq)]
pub enum TypeName {
    Name(String),
    Tuple(usize),
    Fun(usize),
    Array(Option<usize>),
}

/// The mathematical model of a type name.
pub enum STypeName {
    Name(Seq<char>),
    Tuple(usize),
    Fun(usize),
    Array(Option<usize>),
}

impl View for TypeName {
    type V = STypeName;

    open spec fn view(&self) -> STypeName {
        match self {
            TypeName::Name(s) => STypeName::Name(s@),
            TypeName::Tuple(n) => STypeName::Tuple(*n),
            TypeName::Fun(n) => STypeName::Fun(*n),
            TypeName::Array(n) => STypeName::Array(*n),
        }
    }
}

impl TypeName {
    pub fn duplicate(&self) -> (r: TypeName)
        ensures
            r@ == self@,
    {
        match self {
            TypeName::Name(s) => TypeName::Name(s.clone()),
            TypeName::Tuple(n) => TypeName::Tuple(*n),
            TypeName::Fun(n) => TypeName::Fun(*n),
            TypeName::Array(n) => TypeName::Array(*n),
        }
    }

    pub fn same(&self, other: &TypeName) -> (r: bool)
        ensures
            r == (self@ == other@),
    {
        match (self, other) {
            (TypeName::Name(a), TypeName::Name(b)) => {
                let r = *a == *b;
                proof {
                    if !r {
                        assert(a@ != b@);
                    }
                }
                r
            },
            (TypeName::Tuple(a), TypeName::Tuple(b)) => *a == *b,
            (TypeName::Fun(a), TypeName::Fun(b)) => *a == *b,
            (TypeName::Array(a), TypeName::Array(b)) => match (a, b) {
                (Some(x), Some(y)) => *x == *y,
                (None, None) => true,
                _ => false,
            },
            _ => false,
        }
    }
}

/// What a type variable of the program is.
#[derive(Clone, Copy, Debug, PartialEq, Eq, Structural)]
pub enum TypeVarKind {
    Builtin,
    Data,
    Synonym,
}

/// A type variable of the program: its name, kind and, once evaluated, whether its values can
/// be shared.
#[derive(Clone, Debug)]
pub struct TypeVarEntry {
    pub ident: String,
    pub kind: TypeVarKind,
    pub shared_flag: Option<SharedFlag>,
}

pub struct STypeVar {
    pub ident: Seq<char>,
    pub kind: TypeVarKind,
    pub shared_flag: Option<SharedFlag>,
}

impl View for TypeVarEntry {
    type V = STypeVar;

    open spec fn view(&self) -> STypeVar {
        STypeVar { ident: self.ident@, kind: self.kind, shared_flag: self.shared_flag }
    }
}

/// A trait of the program: its name and, once its variables are evaluated, the type names that
/// implement it.
#[derive(Clone, Debug)]
pub struct TraitEntry {
    pub ident: String,
    pub impls: Option<Vec<TypeName>>,
}

pub struct STrait {
    pub ident: Seq<char>,
    pub impls: Option<Seq<STypeName>>,
}

impl View for TraitEntry {
    type V = STrait;

    open spec fn view(&self) -> STrait {
        STrait {
            ident: self.ident@,
            impls: match self.impls {
                Some(v) => Some(v@.map_values(|t: TypeName| t@)),
                None => None,
            },
        }
    }
}

/// The declarations of a program that type matching consults: its type variables and traits.
pub struct Tree {
    pub type_vars: Vec<TypeVarEntry>,
    pub traits: Vec<TraitEntry>,
}

pub struct STree {
    pub type_vars: Seq<STypeVar>,
    pub traits: Seq<STrait>,
}

impl View for Tree {
    type V = STree;

    open spec fn view(&self) -> STree {
        STree {
            type_vars: self.type_vars@.map_values(|v: TypeVarEntry| v@),
            traits: self.traits@.map_values(|t: TraitEntry| t@),
        }
    }
}

/// The first type variable named `id`.
pub open spec fn find_type_var(s: Seq<STypeVar>, id: Seq<char>) -> Option<STypeVar>
    decreases s.len(),
{
    if s.len() == 0 {
        None
    } else if s[0].ident == id {
        Some(s[0])
    } else {
        find_type_var(s.drop_first(), id)
    }
}

/// The first trait named `id`.
pub open spec fn find_trait(s: Seq<STrait>, id: Seq<char>) -> Option<STrait>
    decreases s.len(),
{
    if s.len() == 0 {
        None
    } else if s[0].ident == id {
        Some(s[0])
    } else {
        find_trait(s.drop_first(), id)
    }
}

impl Tree {
    pub fn new() -> (r: Tree)
        ensures
            r@.type_vars.len() == 0,
            r@.traits.len() == 0,
    {
        Tree { type_vars: Vec::new(), traits: Vec::new() }
    }

    /// The first type variable named `ident`.
    pub fn type_var(&self, ident: &String) -> (r: Option<&TypeVarEntry>)
        ensures
            r is Some <==> find_type_var(self@.type_vars, ident@) is Some,
            r matches Some(v) ==> find_type_var(self@.type_vars, ident@) == Some(v@),
    {
        let ghost s = self@.type_vars;
        assert(s.skip(0) =~= s);
        let mut i: usize = 0;
        while i < self.type_vars.len()
            invariant
                i <= self.type_vars@.len(),
                s == self@.type_vars,
                find_type_var(s, ident@) == find_type_var(s.skip(i as int), ident@),
            decreases self.type_vars@.len() - i,
        {
            let ghost rest = s.skip(i as int);
            if self.type_vars[i].ident == *ident {
                assert(rest[0] == self.type_vars@[i as int]@);
                return Some(&self.type_vars[i]);
            }
            assert(rest.drop_first() =~= s.skip(i + 1));
            i = i + 1;
        }
        None
    }

    /// The first trait named `ident`.
    pub fn trait1(&self, ident: &String) -> (r: Option<&TraitEntry>)
        ensures
            r is Some <==> find_trait(self@.traits, ident@) is Some,
            r matches Some(t) ==> find_trait(self@.traits, ident@) == Some(t@),
    {
        let ghost s = self@.traits;
        assert(s.skip(0) =~= s);
        let mut i: usize = 0;
        while i < self.traits.len()
            invariant
                i <= self.traits@.len(),
                s == self@.traits,
                find_trait(s, ident@) == find_trait(s.skip(i as int), ident@),
            decreases self.traits@.len() - i,
        {
            let ghost rest = s.skip(i as int);
            if self.traits[i].ident == *ident {
                assert(rest[0] == self.traits@[i as int]@);
                return Some(&self.traits[i]);
            }
            assert(rest.drop_first() =~= s.skip(i + 1));
            i = i + 1;
        }
        None
    }
}

/// Whether a trait is implemented for a type name.
pub open spec fn has_impl(impls: Seq<STypeName>, t: STypeName) -> bool {
    impls.contains(t)
}

impl TraitEntry {
    /// Whether the trait is implemented for `tn`; `None` when the trait's variables are
    /// not evaluated.
    pub fn has_impl(&self, tn: &TypeName) -> (r: Option<bool>)
        ensures
            r is Some <==> self@.impls is Some,
            r matches Some(b) ==> b == has_impl(self@.impls->Some_0, tn@),
    {
        match &self.impls {
            Some(v) => {
                let ghost s = v@.map_values(|t: TypeName| t@);
                assert(self@.impls == Some(s));
                let mut i: usize = 0;
                while i < v.len()
                    invariant
                        i <= v@.len(),
                        s == v@.map_values(|t: TypeName| t@),
                        self@.impls == Some(s),
                        forall|j: int| 0 <= j < i ==> s[j] != tn@,
                    decreases v@.len() - i,
                {
                    if v[i].same(tn) {
                        assert(s[i as int] == tn@);
                        return Some(true);
                    }
                    i = i + 1;
                }
                assert(!s.contains(tn@));
                Some(false)
            },
            None => None,
        }
    }
}

/// A builtin type variable of the language and whether it is a primitive type.
#[derive(Clone, Debug)]
pub struct BuiltinTypeVar {
    pub ident: String,
    pub is_primitive: bool,
}

/// The builtin type variables of the language.
pub struct Builtins {
    pub type_vars: Vec<BuiltinTypeVar>,
}

/// Whether the first builtin type variable named `id` is a primitive type.
pub open spec fn find_primitive(s: Seq<BuiltinTypeVar>, id: Seq<char>) -> Option<bool>
    decreases s.len(),
{
    if s.len() == 0 {
        None
    } else if s[0].ident@ == id {
        Some(s[0].is_primitive)
    } else {
        find_primitive(s.drop_first(), id)
    }
}

impl Builtins {
    pub fn new() -> (r: Builtins)
        ensures
            r.type_vars@.len() == 0,
    {
        Builtins { type_vars: Vec::new() }
    }

    /// Whether the first builtin type variable named `ident` is primitive; `None` when there is
    /// none.
    pub fn is_primitive(&self, ident: &String) -> (r: Option<bool>)
        ensures
            r == find_primitive(self.type_vars@, ident@),
    {
        let ghost s = self.type_vars@;
        assert(s.skip(0) =~= s);
        let mut i: usize = 0;
        while i < self.type_vars.len()
            invariant
                i <= self.type_vars@.len(),
                s == self.type_vars@,
                find_primitive(s, ident@) == find_primitive(s.skip(i as int), ident@),
            decreases self.type_vars@.len() - i,
        {
            let ghost rest = s.skip(i as int);
            if self.type_vars[i].ident == *ident {
                assert(rest[0] == self.type_vars@[i as int]);
                return Some(self.type_vars[i].is_primitive);
            }
            assert(rest.drop_first() =~= s.skip(i + 1));
            i = i + 1;
        }
        None
    }
}

/// The type name by which implementations for a type value are found; `None` for a parameter.
pub open spec fn stv_type_name(tv: STypeValue) -> Option<STypeName> {
    match tv {
        STypeValue::Param(_, _) => None,
        STypeValue::Type(_, n, args) => Some(
            match n {
                STypeValueName::Name(s) => STypeName::Name(s),
                STypeValueName::Tuple => STypeName::Tuple(args.len() as usize),
                STypeValueName::Fun => STypeName::Fun(args.len() as usize),
                STypeValueName::Array(k) => STypeName::Array(k),
            },
        ),
    }
}

/// The type name by which implementations for a type value are found (see `stv_type_name`).
pub fn type_name_of(tv: &TypeValue) -> (r: Option<TypeName>)
    ensures
        match r {
            Some(t) => stv_type_name(tv@) == Some(t@),
            None => stv_type_name(tv@) is None,
        },
{
    match tv {
        TypeValue::Param(_, _) => None,
        TypeValue::Type(_, n, args) => {
            proof {
                crate::types::lemma_type_values_view(args@);
            }
            Some(
                match n {
                    TypeValueName::Name(s) => TypeName::Name(s.clone()),
                    TypeValueName::Tuple => TypeName::Tuple(args.len()),
                    TypeValueName::Fun => TypeName::Fun(args.len()),
                    TypeValueName::Array(k) => TypeName::Array(*k),
                },
            )
        },
    }
}

} // verus!
