use vstd::prelude::*;
use crate::types::{trait_lt, lemma_trait_lt_order, 
    DefinedFlag, LocalType, STraitName, STypeValue, STypeValueName, TraitName, TypeValue,
    TypeValueName, UniqFlag, duplicate_type_values, lemma_type_values_view, type_values_view,
};

verus! {

/// The models of a sequence of trait names.
pub open spec fn trait_names_view(s: Seq<TraitName>) -> Seq<STraitName> {
    s.map_values(|t: TraitName| t@)
}

/// What a type parameter requires and carries: trait names, the trait's type values, the
/// local types of closures that capture it, its number in texts and its written name.
#[derive(Debug, PartialEq, Eq)]
pub struct TypeParamEntry {
    pub trait_names: Vec<TraitName>,
    pub type_values: Vec<TypeValue>,
    pub closure_local_types: Vec<LocalType>,
    pub number: Option<usize>,
    pub ident: Option<String>,
}

/// The mathematical model of a type parameter entry.
pub struct SParamEntry {
    pub trait_names: Seq<STraitName>,
    pub type_values: Seq<STypeValue>,
    pub closure_local_types: Seq<LocalType>,
    pub number: Option<usize>,
    pub ident: Option<Seq<char>>,
}

pub open spec fn opt_string_view(s: Option<String>) -> Option<Seq<char>> {
    match s {
        Some(x) => Some(x@),
        None => None,
    }
}

impl View for TypeParamEntry {
    type V = SParamEntry;

    open spec fn view(&self) -> SParamEntry {
        SParamEntry {
            trait_names: trait_names_view(self.trait_names@),
            type_values: type_values_view(self.type_values@),
            closure_local_types: self.closure_local_types@,
            number: self.number,
            ident: opt_string_view(self.ident),
        }
    }
}

/// Whether an entry requires the trait `t`.
pub open spec fn has_trait(e: SParamEntry, t: STraitName) -> bool {
    e.trait_names.contains(t)
}

/// Whether a parameter entry carries no constraint that a type value must be checked against:
/// no trait name (but possibly `shared`) and no type value.
pub open spec fn is_bare(e: SParamEntry) -> bool {
    (e.trait_names.len() == 0 || (e.trait_names.len() == 1 && has_trait(e, STraitName::Shared)))
        && e.type_values.len() == 0
}

pub fn contains_trait_name(v: &Vec<TraitName>, t: &TraitName) -> (r: bool)
    ensures
        r == trait_names_view(v@).contains(t@),
{
    let mut i: usize = 0;
    while i < v.len()
        invariant
            i <= v@.len(),
            forall|j: int| 0 <= j < i ==> v@[j]@ != t@,
        decreases v@.len() - i,
    {
        if v[i].same(t) {
            proof {
                assert(trait_names_view(v@)[i as int] == t@);
            }
            return true;
        }
        i = i + 1;
    }
    proof {
        if trait_names_view(v@).contains(t@) {
            let k = choose|k: int|
                0 <= k < trait_names_view(v@).len() && trait_names_view(v@)[k] == t@;
            assert(v@[k]@ == t@);
        }
    }
    false
}

pub fn duplicate_trait_names(v: &Vec<TraitName>) -> (r: Vec<TraitName>)
    ensures
        trait_names_view(r@) == trait_names_view(v@),
{
    let mut r: Vec<TraitName> = Vec::new();
    let mut i: usize = 0;
    while i < v.len()
        invariant
            i <= v@.len(),
            r@.len() == i,
            forall|j: int| 0 <= j < i ==> #[trigger] r@[j]@ == v@[j]@,
        decreases v@.len() - i,
    {
        r.push(v[i].duplicate());
        i = i + 1;
    }
    assert(trait_names_view(r@) =~= trait_names_view(v@));
    r
}

/// The trait names of `a` with `t` added in order (see `trait_lt`): before the first one that
/// comes after it, unless it is met first.
pub open spec fn trait_insert(a: Seq<STraitName>, t: STraitName) -> Seq<STraitName>
    decreases a.len(),
{
    if a.len() == 0 {
        seq![t]
    } else if a[0] == t {
        a
    } else if trait_lt(t, a[0]) {
        seq![t] + a
    } else {
        seq![a[0]] + trait_insert(a.drop_first(), t)
    }
}

/// A trait name is in a sequence after adding `t` exactly when it was there or is `t`.
pub proof fn lemma_trait_insert_contains(a: Seq<STraitName>, t: STraitName, x: STraitName)
    ensures
        trait_insert(a, t).contains(x) <==> (a.contains(x) || x == t),
    decreases a.len(),
{
    if a.len() > 0 && a[0] != t && !trait_lt(t, a[0]) {
        lemma_trait_insert_contains(a.drop_first(), t, x);
        let r = trait_insert(a.drop_first(), t);
        if a.contains(x) && x != a[0] {
            let k = choose|k: int| 0 <= k < a.len() && a[k] == x;
            assert(a.drop_first()[k - 1] == x);
        }
        if r.contains(x) {
            let k = choose|k: int| 0 <= k < r.len() && r[k] == x;
            assert((seq![a[0]] + r)[k + 1] == x);
        }
        if a.drop_first().contains(x) {
            let k = choose|k: int| 0 <= k < a.drop_first().len() && a.drop_first()[k] == x;
            assert(a[k + 1] == x);
        }
        assert((seq![a[0]] + r)[0] == a[0]);
        if (seq![a[0]] + r).contains(x) && x != a[0] {
            let k = choose|k: int| 0 <= k < (seq![a[0]] + r).len() && (seq![a[0]] + r)[k] == x;
            assert(r[k - 1] == x);
        }
        assert(a[0] == a[0]);
    } else if a.len() > 0 && a[0] != t {
        assert((seq![t] + a)[0] == t);
        if a.contains(x) {
            let k = choose|k: int| 0 <= k < a.len() && a[k] == x;
            assert((seq![t] + a)[k + 1] == x);
        }
        if (seq![t] + a).contains(x) && x != t {
            let k = choose|k: int| 0 <= k < (seq![t] + a).len() && (seq![t] + a)[k] == x;
            assert(a[k - 1] == x);
        }
    } else if a.len() == 0 {
        assert(seq![t][0] == t);
    } else {
        assert(a[0] == t);
    }
}

/// Whether the trait names of `a` come in order (see `trait_lt`), none twice.
pub open spec fn trait_sorted(a: Seq<STraitName>) -> bool {
    forall|i: int, j: int| 0 <= i < j < a.len() ==> trait_lt(#[trigger] a[i], #[trigger] a[j])
}

/// Adding a trait name in order keeps a sequence in order, with none twice.
pub proof fn lemma_trait_insert_sorted(a: Seq<STraitName>, t: STraitName)
    requires
        trait_sorted(a),
    ensures
        trait_sorted(trait_insert(a, t)),
    decreases a.len(),
{
    if a.len() == 0 {
    } else if a[0] == t {
    } else if trait_lt(t, a[0]) {
        let r = seq![t] + a;
        assert forall|i: int, j: int| 0 <= i < j < r.len() implies trait_lt(#[trigger] r[i], #[trigger] r[j]) by {
            if i == 0 {
                assert(r[j] == a[j - 1]);
                if j - 1 > 0 {
                    assert(trait_lt(a[0], a[j - 1]));
                    lemma_trait_lt_order(t, a[0], a[j - 1]);
                }
            } else {
                assert(r[i] == a[i - 1]);
                assert(r[j] == a[j - 1]);
            }
        }
    } else {
        lemma_trait_lt_order(t, a[0], a[0]);
        assert(trait_lt(a[0], t));
        let d = a.drop_first();
        assert forall|i: int, j: int| 0 <= i < j < d.len() implies trait_lt(#[trigger] d[i], #[trigger] d[j]) by {
            assert(d[i] == a[i + 1]);
            assert(d[j] == a[j + 1]);
        }
        lemma_trait_insert_sorted(d, t);
        let r2 = trait_insert(d, t);
        let r = seq![a[0]] + r2;
        assert forall|i: int, j: int| 0 <= i < j < r.len() implies trait_lt(#[trigger] r[i], #[trigger] r[j]) by {
            if i == 0 {
                assert(r[j] == r2[j - 1]);
                lemma_trait_insert_contains(d, t, r2[j - 1]);
                assert(r2.contains(r2[j - 1]));
                if d.contains(r2[j - 1]) {
                    let k = choose|k: int| 0 <= k < d.len() && d[k] == r2[j - 1];
                    assert(a[k + 1] == d[k]);
                    assert(trait_lt(a[0], a[k + 1]));
                }
            } else {
                assert(r[i] == r2[i - 1]);
                assert(r[j] == r2[j - 1]);
            }
        }
    }
}

/// The union of two sequences of trait names in order is in order, with none twice.
pub proof fn lemma_trait_names_union_sorted(a: Seq<STraitName>, b: Seq<STraitName>)
    requires
        trait_sorted(a),
    ensures
        trait_sorted(trait_names_union(a, b)),
    decreases b.len(),
{
    if b.len() > 0 {
        lemma_trait_names_union_sorted(a, b.drop_last());
        lemma_trait_insert_sorted(trait_names_union(a, b.drop_last()), b.last());
    }
}

/// Adds `t` to `v` in order (see `trait_insert`).
pub fn insert_trait_name(v: &mut Vec<TraitName>, t: TraitName)
    ensures
        trait_names_view(final(v)@) == trait_insert(trait_names_view(old(v)@), t@),
        trait_sorted(trait_names_view(old(v)@)) ==> trait_sorted(trait_names_view(final(v)@)),
{
    proof {
        if trait_sorted(trait_names_view(v@)) {
            lemma_trait_insert_sorted(trait_names_view(v@), t@);
        }
    }
    let ghost a = trait_names_view(v@);
    let mut i: usize = 0;
    proof {
        assert(a.skip(0) =~= a);
        assert(a.take(0) + a =~= a);
    }
    while i < v.len()
        invariant
            a == trait_names_view(v@),
            a.len() == v@.len(),
            i <= v@.len(),
            trait_insert(a, t@) == a.take(i as int) + trait_insert(a.skip(i as int), t@),
        ensures
            i <= v@.len(),
            trait_insert(a, t@) == a.take(i as int) + trait_insert(a.skip(i as int), t@),
            i < v@.len() ==> trait_lt(t@, a[i as int]) && a[i as int] != t@,
        decreases v@.len() - i,
    {
        proof {
            assert(a.skip(i as int)[0] == v@[i as int]@);
            assert(a.skip(i as int).drop_first() =~= a.skip(i + 1));
        }
        if v[i].same(&t) {
            proof {
                assert(a.take(i as int) + a.skip(i as int) =~= a);
            }
            return;
        }
        if t.lt(&v[i]) {
            proof {
                assert(a[i as int] == v@[i as int]@);
            }
            break;
        }
        proof {
            assert(a.take(i as int) + (seq![a[i as int]] + trait_insert(a.skip(i + 1), t@)) =~= a.take(i + 1)
                + trait_insert(a.skip(i + 1), t@));
        }
        i = i + 1;
    }
    let ghost tv = t@;
    v.insert(i, t);
    proof {
        assert(trait_names_view(v@) =~= a.take(i as int) + (seq![tv] + a.skip(i as int)));
        if i == a.len() {
            assert(a.skip(i as int) =~= Seq::<STraitName>::empty());
        } else {
            assert(a.skip(i as int)[0] == a[i as int]);
        }
    }
}

/// The trait names of `a` with those of `b` added in order in turn (see `trait_insert`).
pub open spec fn trait_names_union(a: Seq<STraitName>, b: Seq<STraitName>) -> Seq<STraitName>
    decreases b.len(),
{
    if b.len() == 0 {
        a
    } else {
        trait_insert(trait_names_union(a, b.drop_last()), b.last())
    }
}

/// The union of two sequences of trait names.
pub fn union_trait_names(a: &Vec<TraitName>, b: &Vec<TraitName>) -> (r: Vec<TraitName>)
    ensures
        trait_names_view(r@) == trait_names_union(trait_names_view(a@), trait_names_view(b@)),
        trait_sorted(trait_names_view(a@)) ==> trait_sorted(trait_names_view(r@)),
{
    proof {
        if trait_sorted(trait_names_view(a@)) {
            lemma_trait_names_union_sorted(trait_names_view(a@), trait_names_view(b@));
        }
    }
    let mut r = duplicate_trait_names(a);
    let mut i: usize = 0;
    while i < b.len()
        invariant
            i <= b@.len(),
            trait_names_view(r@) == trait_names_union(
                trait_names_view(a@),
                trait_names_view(b@).take(i as int),
            ),
        decreases b@.len() - i,
    {
        proof {
            let bt = trait_names_view(b@).take(i + 1);
            assert(bt.drop_last() =~= trait_names_view(b@).take(i as int));
            assert(bt.last() == b@[i as int]@);
        }
        insert_trait_name(&mut r, b[i].duplicate());
        i = i + 1;
    }
    assert(trait_names_view(b@).take(b@.len() as int) =~= trait_names_view(b@));
    r
}

pub fn contains_local_type(v: &Vec<LocalType>, l: LocalType) -> (r: bool)
    ensures
        r == v@.contains(l),
{
    let mut i: usize = 0;
    while i < v.len()
        invariant
            i <= v@.len(),
            forall|j: int| 0 <= j < i ==> v@[j] != l,
        decreases v@.len() - i,
    {
        if v[i].idx == l.idx {
            assert(v@[i as int] == l);
            return true;
        }
        i = i + 1;
    }
    false
}

/// The local types of `a` with `l` added in order of their indices: before the first one of a
/// greater index, unless it is met first.
pub open spec fn local_insert(a: Seq<LocalType>, l: LocalType) -> Seq<LocalType>
    decreases a.len(),
{
    if a.len() == 0 {
        seq![l]
    } else if a[0] == l {
        a
    } else if l.idx < a[0].idx {
        seq![l] + a
    } else {
        seq![a[0]] + local_insert(a.drop_first(), l)
    }
}

/// A local type is in a sequence after adding `l` exactly when it was there or is `l`.
pub proof fn lemma_local_insert_contains(a: Seq<LocalType>, l: LocalType, x: LocalType)
    ensures
        local_insert(a, l).contains(x) <==> (a.contains(x) || x == l),
    decreases a.len(),
{
    if a.len() > 0 && a[0] != l && !(l.idx < a[0].idx) {
        lemma_local_insert_contains(a.drop_first(), l, x);
        let r = local_insert(a.drop_first(), l);
        if a.contains(x) && x != a[0] {
            let k = choose|k: int| 0 <= k < a.len() && a[k] == x;
            assert(a.drop_first()[k - 1] == x);
        }
        if r.contains(x) {
            let k = choose|k: int| 0 <= k < r.len() && r[k] == x;
            assert((seq![a[0]] + r)[k + 1] == x);
        }
        if a.drop_first().contains(x) {
            let k = choose|k: int| 0 <= k < a.drop_first().len() && a.drop_first()[k] == x;
            assert(a[k + 1] == x);
        }
        assert((seq![a[0]] + r)[0] == a[0]);
        if (seq![a[0]] + r).contains(x) && x != a[0] {
            let k = choose|k: int| 0 <= k < (seq![a[0]] + r).len() && (seq![a[0]] + r)[k] == x;
            assert(r[k - 1] == x);
        }
    } else if a.len() > 0 && a[0] != l {
        assert((seq![l] + a)[0] == l);
        if a.contains(x) {
            let k = choose|k: int| 0 <= k < a.len() && a[k] == x;
            assert((seq![l] + a)[k + 1] == x);
        }
        if (seq![l] + a).contains(x) && x != l {
            let k = choose|k: int| 0 <= k < (seq![l] + a).len() && (seq![l] + a)[k] == x;
            assert(a[k - 1] == x);
        }
    } else if a.len() == 0 {
        assert(seq![l][0] == l);
    }
}

/// Adds `l` to `v` in order (see `local_insert`).
pub fn insert_local_type(v: &mut Vec<LocalType>, l: LocalType)
    ensures
        final(v)@ == local_insert(old(v)@, l),
        local_sorted(old(v)@) ==> local_sorted(final(v)@),
{
    proof {
        if local_sorted(v@) {
            lemma_local_insert_sorted(v@, l);
        }
    }
    let ghost a = v@;
    let mut i: usize = 0;
    proof {
        assert(a.skip(0) =~= a);
        assert(a.take(0) + a =~= a);
    }
    while i < v.len()
        invariant
            a == v@,
            i <= v@.len(),
            local_insert(a, l) == a.take(i as int) + local_insert(a.skip(i as int), l),
        ensures
            i <= v@.len(),
            local_insert(a, l) == a.take(i as int) + local_insert(a.skip(i as int), l),
            i < v@.len() ==> l.idx < a[i as int].idx && a[i as int] != l,
        decreases v@.len() - i,
    {
        proof {
            assert(a.skip(i as int)[0] == v@[i as int]);
            assert(a.skip(i as int).drop_first() =~= a.skip(i + 1));
        }
        if v[i].idx == l.idx {
            proof {
                assert(v@[i as int] == l);
                assert(a.take(i as int) + a.skip(i as int) =~= a);
            }
            return;
        }
        if l.idx < v[i].idx {
            break;
        }
        proof {
            assert(a.take(i as int) + (seq![a[i as int]] + local_insert(a.skip(i + 1), l)) =~= a.take(i + 1)
                + local_insert(a.skip(i + 1), l));
        }
        i = i + 1;
    }
    v.insert(i, l);
    proof {
        assert(v@ =~= a.take(i as int) + (seq![l] + a.skip(i as int)));
        if i == a.len() {
            assert(a.skip(i as int) =~= Seq::<LocalType>::empty());
        } else {
            assert(a.skip(i as int)[0] == a[i as int]);
        }
    }
}

/// Whether the local types of `a` come in increasing order of their indices, none twice.
pub open spec fn local_sorted(a: Seq<LocalType>) -> bool {
    forall|i: int, j: int| 0 <= i < j < a.len() ==> (#[trigger] a[i]).idx < (#[trigger] a[j]).idx
}

/// Adding a local type in order keeps a sequence in order, with none twice.
pub proof fn lemma_local_insert_sorted(a: Seq<LocalType>, l: LocalType)
    requires
        local_sorted(a),
    ensures
        local_sorted(local_insert(a, l)),
    decreases a.len(),
{
    if a.len() == 0 {
    } else if a[0] == l {
    } else if l.idx < a[0].idx {
        let r = seq![l] + a;
        assert forall|i: int, j: int| 0 <= i < j < r.len() implies (#[trigger] r[i]).idx < (#[trigger] r[j]).idx by {
            if i == 0 {
                assert(r[j] == a[j - 1]);
                if j - 1 > 0 {
                    assert(a[0].idx < a[j - 1].idx);
                }
            } else {
                assert(r[i] == a[i - 1]);
                assert(r[j] == a[j - 1]);
            }
        }
    } else {
        let d = a.drop_first();
        assert forall|i: int, j: int| 0 <= i < j < d.len() implies (#[trigger] d[i]).idx < (#[trigger] d[j]).idx by {
            assert(d[i] == a[i + 1]);
            assert(d[j] == a[j + 1]);
        }
        lemma_local_insert_sorted(d, l);
        let r2 = local_insert(d, l);
        let r = seq![a[0]] + r2;
        assert forall|i: int, j: int| 0 <= i < j < r.len() implies (#[trigger] r[i]).idx < (#[trigger] r[j]).idx by {
            if i == 0 {
                assert(r[j] == r2[j - 1]);
                lemma_local_insert_contains(d, l, r2[j - 1]);
                assert(r2.contains(r2[j - 1]));
                if d.contains(r2[j - 1]) {
                    let k = choose|k: int| 0 <= k < d.len() && d[k] == r2[j - 1];
                    assert(a[k + 1] == d[k]);
                    assert(a[0].idx < a[k + 1].idx);
                }
            } else {
                assert(r[i] == r2[i - 1]);
                assert(r[j] == r2[j - 1]);
            }
        }
    }
}

/// The union of two sequences of local types in order is in order, with none twice.
pub proof fn lemma_local_types_union_sorted(a: Seq<LocalType>, b: Seq<LocalType>)
    requires
        local_sorted(a),
    ensures
        local_sorted(local_types_union(a, b)),
    decreases b.len(),
{
    if b.len() > 0 {
        lemma_local_types_union_sorted(a, b.drop_last());
        lemma_local_insert_sorted(local_types_union(a, b.drop_last()), b.last());
    }
}

/// The local types of `a` with those of `b` added in order in turn (see `local_insert`).
pub open spec fn local_types_union(a: Seq<LocalType>, b: Seq<LocalType>) -> Seq<LocalType>
    decreases b.len(),
{
    if b.len() == 0 {
        a
    } else {
        local_insert(local_types_union(a, b.drop_last()), b.last())
    }
}

pub fn union_local_types(a: &Vec<LocalType>, b: &Vec<LocalType>) -> (r: Vec<LocalType>)
    ensures
        r@ == local_types_union(a@, b@),
        local_sorted(a@) ==> local_sorted(r@),
{
    proof {
        if local_sorted(a@) {
            lemma_local_types_union_sorted(a@, b@);
        }
    }
    let mut r = a.clone();
    assert(r@ =~= a@);
    let mut i: usize = 0;
    while i < b.len()
        invariant
            i <= b@.len(),
            r@ == local_types_union(a@, b@.take(i as int)),
        decreases b@.len() - i,
    {
        proof {
            assert(b@.take(i + 1).drop_last() =~= b@.take(i as int));
        }
        insert_local_type(&mut r, b[i]);
        i = i + 1;
    }
    assert(b@.take(b@.len() as int) =~= b@);
    r
}

impl TypeParamEntry {
    pub fn new() -> (r: TypeParamEntry)
        ensures
            r@ == (SParamEntry {
                trait_names: Seq::empty(),
                type_values: Seq::empty(),
                closure_local_types: Seq::empty(),
                number: None,
                ident: None,
            }),
    {
        let r = TypeParamEntry {
            trait_names: Vec::new(),
            type_values: Vec::new(),
            closure_local_types: Vec::new(),
            number: None,
            ident: None,
        };
        assert(r@.trait_names =~= Seq::<STraitName>::empty());
        assert(r@.type_values =~= Seq::<STypeValue>::empty());
        r
    }

    pub fn duplicate(&self) -> (r: TypeParamEntry)
        ensures
            r@ == self@,
    {
        let ident = match &self.ident {
            Some(s) => Some(s.clone()),
            None => None,
        };
        TypeParamEntry {
            trait_names: duplicate_trait_names(&self.trait_names),
            type_values: duplicate_type_values(&self.type_values),
            closure_local_types: self.closure_local_types.clone(),
            number: self.number,
            ident,
        }
    }

    pub fn has_trait_name(&self, t: &TraitName) -> (r: bool)
        ensures
            r == has_trait(self@, t@),
    {
        contains_trait_name(&self.trait_names, t)
    }

    /// Whether the entry carries no trait (but possibly `shared`) and no type value.
    pub fn is_bare(&self) -> (r: bool)
        ensures
            r == is_bare(self@),
    {
        let n = self.trait_names.len();
        let shared = self.has_trait_name(&TraitName::Shared);
        (n == 0 || (n == 1 && shared)) && self.type_values.len() == 0
    }
}

/// An entry of a local type: a type parameter (with its definedness, uniqueness, entry and
/// the local type that holds it) or a type value.
#[derive(Debug, PartialEq, Eq)]
pub enum LocalTypeEntry {
    Param(DefinedFlag, UniqFlag, TypeParamEntry, LocalType),
    Type(TypeValue),
}

/// The mathematical model of a local type entry.
pub enum SEntry {
    Param(DefinedFlag, UniqFlag, SParamEntry, LocalType),
    Type(STypeValue),
}

impl View for LocalTypeEntry {
    type V = SEntry;

    open spec fn view(&self) -> SEntry {
        match self {
            LocalTypeEntry::Param(d, u, e, l) => SEntry::Param(*d, *u, e@, *l),
            LocalTypeEntry::Type(t) => SEntry::Type(t@),
        }
    }
}

impl LocalTypeEntry {
    pub fn duplicate(&self) -> (r: LocalTypeEntry)
        ensures
            r@ == self@,
    {
        match self {
            LocalTypeEntry::Param(d, u, e, l) => LocalTypeEntry::Param(*d, *u, e.duplicate(), *l),
            LocalTypeEntry::Type(t) => LocalTypeEntry::Type(t.duplicate()),
        }
    }
}

/// What a class of type parameters that must be equal shares: the name of the type it was
/// bound to, whether it occurs in a non-unique lambda, whether it stems from an equation of a
/// defined type, and the local types named by the equation besides the class's root.
#[derive(Debug, PartialEq, Eq)]
pub struct EqTypeParamEntry {
    pub type_value_name: Option<TypeValueName>,
    pub is_in_non_uniq_lambda: bool,
    pub is_defined: bool,
    pub local_types: Vec<LocalType>,
}

/// The mathematical model of an equation class entry.
pub struct SEqEntry {
    pub type_value_name: Option<STypeValueName>,
    pub is_in_non_uniq_lambda: bool,
    pub is_defined: bool,
    pub local_types: Seq<LocalType>,
}

pub open spec fn opt_name_view(n: Option<TypeValueName>) -> Option<STypeValueName> {
    match n {
        Some(x) => Some(x@),
        None => None,
    }
}

impl View for EqTypeParamEntry {
    type V = SEqEntry;

    open spec fn view(&self) -> SEqEntry {
        SEqEntry {
            type_value_name: opt_name_view(self.type_value_name),
            is_in_non_uniq_lambda: self.is_in_non_uniq_lambda,
            is_defined: self.is_defined,
            local_types: self.local_types@,
        }
    }
}

impl EqTypeParamEntry {
    pub fn new() -> (r: EqTypeParamEntry)
        ensures
            r@ == (SEqEntry {
                type_value_name: None,
                is_in_non_uniq_lambda: false,
                is_defined: false,
                local_types: Seq::empty(),
            }),
    {
        EqTypeParamEntry {
            type_value_name: None,
            is_in_non_uniq_lambda: false,
            is_defined: false,
            local_types: Vec::new(),
        }
    }

    pub fn duplicate(&self) -> (r: EqTypeParamEntry)
        ensures
            r@ == self@,
    {
        let n = match &self.type_value_name {
            Some(x) => Some(x.duplicate()),
            None => None,
        };
        EqTypeParamEntry {
            type_value_name: n,
            is_in_non_uniq_lambda: self.is_in_non_uniq_lambda,
            is_defined: self.is_defined,
            local_types: self.local_types.clone(),
        }
    }
}

/// A type with its type parameters: the type value, whose parameter `i` is the `i`-th entry,
/// the entries of the type parameters, and for each type parameter the type parameters that
/// equations make equal to it (itself among them).
#[derive(Debug, PartialEq, Eq)]
pub struct Type {
    pub type_value: TypeValue,
    pub type_param_entries: Vec<TypeParamEntry>,
    pub eq_type_param_set: Vec<Vec<LocalType>>,
}

/// The mathematical model of a type with its type parameters.
pub struct SType {
    pub type_value: STypeValue,
    pub params: Seq<SParamEntry>,
    pub eqs: Seq<Seq<LocalType>>,
}

pub open spec fn param_entries_view(s: Seq<TypeParamEntry>) -> Seq<SParamEntry> {
    s.map_values(|e: TypeParamEntry| e@)
}

pub open spec fn local_type_sets_view(s: Seq<Vec<LocalType>>) -> Seq<Seq<LocalType>> {
    s.map_values(|v: Vec<LocalType>| v@)
}

impl View for Type {
    type V = SType;

    open spec fn view(&self) -> SType {
        SType {
            type_value: self.type_value@,
            params: param_entries_view(self.type_param_entries@),
            eqs: local_type_sets_view(self.eq_type_param_set@),
        }
    }
}

impl Type {
    pub fn new(
        type_value: TypeValue,
        type_param_entries: Vec<TypeParamEntry>,
        eq_type_param_set: Vec<Vec<LocalType>>,
    ) -> (r: Type)
        ensures
            r.type_value@ == type_value@,
            r.type_param_entries@ == type_param_entries@,
            r.eq_type_param_set@ == eq_type_param_set@,
    {
        Type { type_value, type_param_entries, eq_type_param_set }
    }

    pub fn type_value(&self) -> (r: &TypeValue)
        ensures
            r@ == self.type_value@,
    {
        &self.type_value
    }

    pub fn type_param_entries(&self) -> (r: &Vec<TypeParamEntry>)
        ensures
            r@ == self.type_param_entries@,
    {
        &self.type_param_entries
    }

    pub fn eq_type_param_set(&self) -> (r: &Vec<Vec<LocalType>>)
        ensures
            r@ == self.eq_type_param_set@,
    {
        &self.eq_type_param_set
    }
}

} // verus!
