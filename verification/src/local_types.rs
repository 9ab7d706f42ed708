use vstd::prelude::*;
use crate::entries::{
    local_type_sets_view, param_entries_view, SType, Type, EqTypeParamEntry, LocalTypeEntry, SEntry, SEqEntry, SParamEntry, TypeParamEntry,
    local_types_union, opt_name_view, trait_names_view, union_local_types,
};
use crate::types::{
    DefinedFlag, LocalType, STypeValue, STypeValueName, TraitName, TypeValue, UniqFlag,
    stv_with_uniq, uniq_flag_or, uniq_or, STraitName, TypeValueName, lemma_type_values_view,
    type_values_view, FrontendInternalResult, internal_error, duplicate_type_values,
};
use crate::union_find::UnionFind;
use crate::subst::{lemma_list_subst, stv_list_subst, stv_params_below, stv_subst, subst_values};

verus! {

/// The mathematical model of a table of local types: the entry kept at each index (meaningful
/// at roots), the root of the class of unified local types of each index, the equation class
/// entries and roots, the equations of the defined type, and how many type parameters were
/// made so far (which numbers them).
pub struct SLocalTypes {
    pub entries: Seq<SEntry>,
    pub roots: Seq<int>,
    pub eq_entries: Seq<SEqEntry>,
    pub eq_roots: Seq<int>,
    pub orig: Seq<Seq<LocalType>>,
    pub param_count: nat,
}

impl SLocalTypes {
    pub open spec fn len(self) -> nat {
        self.entries.len()
    }

    /// The entry of local type `i`: the one kept at the root of its class.
    pub open spec fn entry_of(self, i: int) -> SEntry {
        self.entries[self.roots[i]]
    }

    /// The equation class entry of local type `i`.
    pub open spec fn eq_entry_of(self, i: int) -> SEqEntry {
        self.eq_entries[self.eq_roots[i]]
    }

    pub open spec fn well_formed(self) -> bool {
        &&& self.roots.len() == self.len()
        &&& self.eq_entries.len() == self.len()
        &&& self.eq_roots.len() == self.len()
        &&& forall|i: int|
            0 <= i < self.len() ==> i <= #[trigger] self.roots[i] < self.len() && self.roots[self.roots[i]]
                == self.roots[i]
        &&& forall|i: int|
            0 <= i < self.len() ==> i <= #[trigger] self.eq_roots[i] < self.len()
                && self.eq_roots[self.eq_roots[i]] == self.eq_roots[i]
        &&& self.params_at_own_roots()
    }

    /// A type parameter entry kept at a root names that root as its local type.
    pub open spec fn params_at_own_roots(self) -> bool {
        forall|i: int|
            0 <= i < self.len() && self.roots[i] == i && #[trigger] self.entries[i] is Param
                ==> self.entries[i]->Param_3.idx == i
    }

    /// A type parameter that a type value stands for is kept at its own local type, a root.
    pub proof fn lemma_resolve_param(self, tv: STypeValue, fuel: nat)
        requires
            self.well_formed(),
        ensures
            self.resolve(tv, fuel) matches Some(SEntry::Param(d, u, e, l)) ==> {
                &&& 0 <= l.idx < self.len()
                &&& self.roots[l.idx as int] == l.idx
                &&& self.entries[l.idx as int] is Param
                &&& self.entries[l.idx as int]->Param_0 == d
                &&& self.entries[l.idx as int]->Param_2 == e
                &&& self.entries[l.idx as int]->Param_3 == l
            },
        decreases fuel,
    {
        match tv {
            STypeValue::Type(_, _, _) => {},
            STypeValue::Param(u, l) => {
                if l.idx < self.len() {
                    match self.entry_of(l.idx as int) {
                        SEntry::Param(_, _, _, _) => {},
                        SEntry::Type(t) => match t {
                            STypeValue::Param(u3, l3) => {
                                if fuel > 0 {
                                    self.lemma_resolve_param(
                                        STypeValue::Param(uniq_or(u, u3), l3),
                                        (fuel - 1) as nat,
                                    );
                                }
                            },
                            STypeValue::Type(_, _, _) => {},
                        },
                    }
                }
            },
        }
    }

    /// The entry that a type value stands for: a type value stands for itself; a parameter for
    /// the entry of its local type, following parameters that local types are bound to at most
    /// `fuel` times, where uniqueness accumulates along the way.
    pub open spec fn resolve(self, tv: STypeValue, fuel: nat) -> Option<SEntry>
        decreases fuel,
    {
        match tv {
            STypeValue::Type(_, _, _) => Some(SEntry::Type(tv)),
            STypeValue::Param(u, l) => if l.idx >= self.len() {
                None
            } else {
                match self.entry_of(l.idx as int) {
                    SEntry::Param(d, u2, e, l2) => Some(SEntry::Param(d, uniq_or(u, u2), e, l2)),
                    SEntry::Type(t) => match t {
                        STypeValue::Param(u3, l3) => if fuel == 0 {
                            None
                        } else {
                            self.resolve(STypeValue::Param(uniq_or(u, u3), l3), (fuel - 1) as nat)
                        },
                        STypeValue::Type(_, _, _) => Some(SEntry::Type(stv_with_uniq(t, u))),
                    },
                }
            },
        }
    }

    /// The entry that a type value stands for, following at most as many bindings as there are
    /// local types.
    pub open spec fn entry_for(self, tv: STypeValue) -> Option<SEntry> {
        self.resolve(tv, self.len())
    }
}

/// A table of local types: type parameters and type values of a function body, the classes of
/// those that were unified, and the classes of those that equations make equal.
pub struct LocalTypes {
    type_entries: UnionFind<LocalTypeEntry>,
    eq_type_param_entries: UnionFind<EqTypeParamEntry>,
    orig_eq_type_param_set: Vec<Vec<LocalType>>,
    type_param_count: usize,
}

impl View for LocalTypes {
    type V = SLocalTypes;

    closed spec fn view(&self) -> SLocalTypes {
        SLocalTypes {
            entries: Seq::new(
                self.type_entries.spec_len(),
                |i: int| self.type_entries.values()[i]@,
            ),
            roots: Seq::new(self.type_entries.spec_len(), |i: int| self.type_entries.root(i)),
            eq_entries: Seq::new(
                self.eq_type_param_entries.spec_len(),
                |i: int| self.eq_type_param_entries.values()[i]@,
            ),
            eq_roots: Seq::new(
                self.eq_type_param_entries.spec_len(),
                |i: int| self.eq_type_param_entries.root(i),
            ),
            orig: self.orig_eq_type_param_set@.map_values(|s: Vec<LocalType>| s@),
            param_count: self.type_param_count as nat,
        }
    }
}

/// The entry of a new undefined type parameter of local type `n`, numbered `number`.
pub open spec fn new_param_entry(e: SParamEntry, n: int, number: int) -> SEntry {
    SEntry::Param(
        DefinedFlag::Undefined,
        UniqFlag::NonUniq,
        SParamEntry { number: Some(number as usize), ..e },
        LocalType { idx: n as usize },
    )
}

pub open spec fn default_eq_entry() -> SEqEntry {
    SEqEntry {
        type_value_name: None,
        is_in_non_uniq_lambda: false,
        is_defined: false,
        local_types: Seq::empty(),
    }
}

/// The uniqueness that a parameter entry keeps when the entry is replaced.
pub open spec fn kept_uniq(e: SEntry) -> UniqFlag {
    match e {
        SEntry::Param(_, u, _, _) => u,
        SEntry::Type(_) => UniqFlag::NonUniq,
    }
}

impl LocalTypes {
    pub closed spec fn wf(&self) -> bool {
        &&& self.type_entries.wf()
        &&& self.eq_type_param_entries.wf()
        &&& self.type_entries.spec_len() == self.eq_type_param_entries.spec_len()
        &&& self@.params_at_own_roots()
    }

    pub proof fn lemma_wf(&self)
        requires
            self.wf(),
        ensures
            self@.well_formed(),
    {
        self.type_entries.lemma_wf();
        self.eq_type_param_entries.lemma_wf();
    }

    pub fn new() -> (r: LocalTypes)
        ensures
            r.wf(),
            r@.len() == 0,
            r@.roots.len() == 0,
            r@.eq_entries.len() == 0,
            r@.eq_roots.len() == 0,
            r@.orig.len() == 0,
            r@.param_count == 0,
    {
        LocalTypes {
            type_entries: UnionFind::new(),
            eq_type_param_entries: UnionFind::new(),
            orig_eq_type_param_set: Vec::new(),
            type_param_count: 0,
        }
    }

    pub fn len(&self) -> (r: usize)
        requires
            self.wf(),
        ensures
            r == self@.len(),
    {
        self.type_entries.len()
    }

    pub fn type_entries(&self) -> (r: &UnionFind<LocalTypeEntry>)
        requires
            self.wf(),
        ensures
            r.wf(),
            r.spec_len() == self@.len(),
            forall|i: int| 0 <= i < self@.len() ==> #[trigger] r.root(i) == self@.roots[i],
    {
        &self.type_entries
    }

    pub fn eq_type_param_entries(&self) -> (r: &UnionFind<EqTypeParamEntry>)
        requires
            self.wf(),
        ensures
            r.wf(),
            r.spec_len() == self@.len(),
            forall|i: int| 0 <= i < self@.len() ==> #[trigger] r.root(i) == self@.eq_roots[i],
    {
        &self.eq_type_param_entries
    }

    pub fn orig_eq_type_param_set(&self) -> (r: &Vec<Vec<LocalType>>)
        ensures
            r@.len() == self@.orig.len(),
            forall|i: int| 0 <= i < r@.len() ==> #[trigger] r@[i]@ == self@.orig[i],
    {
        &self.orig_eq_type_param_set
    }

    /// Adds a local type that keeps `entry`.
    fn push_entry(&mut self, entry: LocalTypeEntry) -> (r: LocalType)
        requires
            old(self).wf(),
            entry@ is Param ==> entry@->Param_3.idx == old(self)@.len(),
        ensures
            final(self).wf(),
            r.idx == old(self)@.len(),
            final(self)@ == (SLocalTypes {
                entries: old(self)@.entries.push(entry@),
                roots: old(self)@.roots.push(r.idx as int),
                eq_entries: old(self)@.eq_entries.push(default_eq_entry()),
                eq_roots: old(self)@.eq_roots.push(r.idx as int),
                orig: old(self)@.orig,
                param_count: old(self)@.param_count,
            }),
    {
        let ghost e = entry@;
        let n = self.type_entries.push(entry);
        self.eq_type_param_entries.push(EqTypeParamEntry::new());
        proof {
            assert(self@.entries =~= old(self)@.entries.push(e));
            assert(self@.roots =~= old(self)@.roots.push(n as int));
            assert(self@.eq_entries =~= old(self)@.eq_entries.push(default_eq_entry()));
            assert(self@.eq_roots =~= old(self)@.eq_roots.push(n as int));
        }
        LocalType::new(n)
    }

    /// Adds a type parameter with `entry`, numbered after the type parameters made so far.
    pub fn add_type_param(&mut self, entry: TypeParamEntry) -> (r: LocalType)
        requires
            old(self).wf(),
            old(self)@.len() < usize::MAX,
            old(self)@.param_count < usize::MAX,
        ensures
            keeps_classes(old(self)@, final(self)@),
            final(self).wf(),
            r.idx == old(self)@.len(),
            final(self)@ == (SLocalTypes {
                entries: old(self)@.entries.push(
                    new_param_entry(entry@, r.idx as int, (old(self)@.param_count + 1) as int),
                ),
                roots: old(self)@.roots.push(r.idx as int),
                eq_entries: old(self)@.eq_entries.push(default_eq_entry()),
                eq_roots: old(self)@.eq_roots.push(r.idx as int),
                orig: old(self)@.orig,
                param_count: old(self)@.param_count + 1,
            }),
    {
        proof {
            self.lemma_wf();
        }
        let n = self.type_entries.len();
        let mut entry = entry;
        entry.number = Some(self.type_param_count + 1);
        let l = self.push_entry(
            LocalTypeEntry::Param(
                DefinedFlag::Undefined,
                UniqFlag::NonUniq,
                entry,
                LocalType::new(n),
            ),
        );
        self.type_param_count = self.type_param_count + 1;
        l
    }

    /// Adds a local type bound to `type_value`.
    pub fn add_type_value(&mut self, type_value: TypeValue) -> (r: LocalType)
        requires
            old(self).wf(),
        ensures
            keeps_classes(old(self)@, final(self)@),
            final(self).wf(),
            r.idx == old(self)@.len(),
            final(self)@ == (SLocalTypes {
                entries: old(self)@.entries.push(SEntry::Type(type_value@)),
                roots: old(self)@.roots.push(r.idx as int),
                eq_entries: old(self)@.eq_entries.push(default_eq_entry()),
                eq_roots: old(self)@.eq_roots.push(r.idx as int),
                orig: old(self)@.orig,
                param_count: old(self)@.param_count,
            }),
    {
        proof {
            self.lemma_wf();
        }
        self.push_entry(LocalTypeEntry::Type(type_value))
    }

    /// The entry of a local type.
    pub fn type_entry(&self, local_type: LocalType) -> (r: Option<&LocalTypeEntry>)
        requires
            self.wf(),
        ensures
            r is Some <==> local_type.idx < self@.len(),
            r matches Some(e) ==> e@ == self@.entry_of(local_type.idx as int),
    {
        if local_type.idx < self.type_entries.len() {
            let r = self.type_entries.root_of(local_type.idx);
            proof {
                self.type_entries.lemma_wf();
            }
            Some(self.type_entries.value_at(r))
        } else {
            None
        }
    }

    /// The entry that a type value stands for (see `SLocalTypes::entry_for`).
    pub fn type_entry_for_type_value(&self, type_value: &TypeValue) -> (r: Option<LocalTypeEntry>)
        requires
            self.wf(),
        ensures
            r is Some <==> self@.entry_for(type_value@) is Some,
            r matches Some(e) ==> self@.entry_for(type_value@) == Some(e@),
    {
        proof {
            self.type_entries.lemma_wf();
        }
        match type_value {
            TypeValue::Type(_, _, _) => Some(LocalTypeEntry::Type(type_value.duplicate())),
            TypeValue::Param(u0, l0) => {
                let n = self.type_entries.len();
                let mut u = *u0;
                let mut l = *l0;
                let mut fuel = n;
                loop
                    invariant
                        self.wf(),
                        n == self@.len(),
                        fuel <= n,
                        self@.entry_for(type_value@) == self@.resolve(
                            STypeValue::Param(u, l),
                            fuel as nat,
                        ),
                    decreases fuel,
                {
                    if l.idx >= n {
                        return None;
                    }
                    let r = self.type_entries.root_of(l.idx);
                    proof {
                        self.type_entries.lemma_wf();
                    }
                    match self.type_entries.value_at(r) {
                        LocalTypeEntry::Param(d, u2, e, l2) => {
                            return Some(
                                LocalTypeEntry::Param(*d, uniq_flag_or(u, *u2), e.duplicate(), *l2),
                            );
                        },
                        LocalTypeEntry::Type(t) => {
                            match t {
                                TypeValue::Param(u3, l3) => {
                                    if fuel == 0 {
                                        return None;
                                    }
                                    u = uniq_flag_or(u, *u3);
                                    l = *l3;
                                    fuel = fuel - 1;
                                },
                                TypeValue::Type(_, _, _) => {
                                    return Some(LocalTypeEntry::Type(t.with_uniq(u)));
                                },
                            }
                        },
                    }
                }
            },
        }
    }
}

/// The roots after the class of root `a` was put into the class of root `b`.
pub open spec fn relink(roots: Seq<int>, a: int, b: int) -> Seq<int> {
    roots.map_values(|x: int| if x == a { b } else { x })
}

/// The table after the class of local type `l` gets the type parameter entry `e` with defined
/// flag `d`, keeping its uniqueness; the table itself where `l` is no local type.
pub open spec fn with_param_entry(s: SLocalTypes, l: LocalType, e: SParamEntry, d: DefinedFlag) -> SLocalTypes {
    if l.idx < s.len() {
        SLocalTypes {
            entries: s.entries.update(
                s.roots[l.idx as int],
                SEntry::Param(
                    d,
                    kept_uniq(s.entry_of(l.idx as int)),
                    e,
                    LocalType { idx: s.roots[l.idx as int] as usize },
                ),
            ),
            ..s
        }
    } else {
        s
    }
}

/// The table after the class of local type `l` is bound to type value `tv`: the class's entry
/// becomes `tv`, and where `tv` is a type, the members of its equation class that are type
/// parameters are bound to that type's name (see `bind_members`), and the equation class takes
/// the name.
pub open spec fn with_type_value(s: SLocalTypes, l: LocalType, tv: STypeValue) -> SLocalTypes {
    let bound = s.entries.update(s.roots[l.idx as int], SEntry::Type(tv));
    SLocalTypes {
        entries: match tv {
            STypeValue::Type(_, n, _) => bind_members(s, bound, class_members(s, l.idx as int), n),
            STypeValue::Param(_, _) => bound,
        },
        eq_entries: s.eq_entries.update(
            s.eq_roots[l.idx as int],
            SEqEntry {
                type_value_name: bound_name(tv, s.eq_entry_of(l.idx as int).type_value_name),
                ..s.eq_entry_of(l.idx as int)
            },
        ),
        ..s
    }
}

/// The root of the class that joining the classes of `l1` and `l2` makes: the later root.
pub open spec fn join_root(s: SLocalTypes, l1: LocalType, l2: LocalType) -> int {
    max_int(s.roots[l1.idx as int], s.roots[l2.idx as int])
}

/// The root of the equation class that joining the classes of `l1` and `l2` makes.
pub open spec fn join_eq_root(s: SLocalTypes, l1: LocalType, l2: LocalType) -> int {
    max_int(s.eq_roots[l1.idx as int], s.eq_roots[l2.idx as int])
}

/// The table after the classes and the equation classes of `l1` and `l2` are joined: the
/// earlier root is put under the later one, and the later equation class root gets the merged
/// equation class entry.
pub open spec fn joined(s: SLocalTypes, l1: LocalType, l2: LocalType) -> SLocalTypes {
    let ra = s.roots[l1.idx as int];
    let rb = s.roots[l2.idx as int];
    let ea = s.eq_roots[l1.idx as int];
    let eb = s.eq_roots[l2.idx as int];
    SLocalTypes {
        entries: s.entries,
        roots: if ra == rb {
            s.roots
        } else {
            relink(s.roots, min_int(ra, rb), max_int(ra, rb))
        },
        eq_entries: if ea == eb {
            s.eq_entries
        } else {
            s.eq_entries.update(
                max_int(ea, eb),
                merged_eq_entry(s.eq_entries[max_int(ea, eb)], s.eq_entries[min_int(ea, eb)], min_int(ea, eb)),
            )
        },
        eq_roots: if ea == eb {
            s.eq_roots
        } else {
            relink(s.eq_roots, min_int(ea, eb), max_int(ea, eb))
        },
        orig: s.orig,
        param_count: s.param_count,
    }
}

/// Whether every class of table `s0` lies within one class of table `s1`, which may have more
/// local types: what was unified stays unified.
pub open spec fn keeps_classes(s0: SLocalTypes, s1: SLocalTypes) -> bool {
    &&& s0.len() <= s1.len()
    &&& forall|i: int| 0 <= i < s0.len() ==> #[trigger] s1.roots[i] == s1.roots[s0.roots[i]]
}

/// Whether equation class entry `b` has every flag that `a` has: it stands in a non-unique
/// lambda, and in an equation of the defined type's type parameters, where `a` does.
pub open spec fn eq_flags_kept(a: SEqEntry, b: SEqEntry) -> bool {
    &&& a.is_in_non_uniq_lambda ==> b.is_in_non_uniq_lambda
    &&& a.is_defined ==> b.is_defined
}

/// Whether every local type of table `s0` keeps in table `s1` the flags of its equation class
/// (see `eq_flags_kept`).
pub open spec fn keeps_eq_flags(s0: SLocalTypes, s1: SLocalTypes) -> bool {
    &&& s0.len() <= s1.len()
    &&& forall|i: int| 0 <= i < s0.len() ==> eq_flags_kept(s0.eq_entry_of(i), #[trigger] s1.eq_entry_of(i))
}

/// Keeping the flags of equation classes is transitive.
pub proof fn lemma_keeps_eq_flags_trans(s0: SLocalTypes, s1: SLocalTypes, s2: SLocalTypes)
    requires
        keeps_eq_flags(s0, s1),
        keeps_eq_flags(s1, s2),
    ensures
        keeps_eq_flags(s0, s2),
{
    assert forall|i: int| 0 <= i < s0.len() implies eq_flags_kept(
        s0.eq_entry_of(i),
        #[trigger] s2.eq_entry_of(i),
    ) by {
        assert(eq_flags_kept(s0.eq_entry_of(i), s1.eq_entry_of(i)));
        assert(eq_flags_kept(s1.eq_entry_of(i), s2.eq_entry_of(i)));
    }
}

/// A table keeps its own classes, and so does one with the same roots.
pub proof fn lemma_keeps_same_roots(s0: SLocalTypes, s1: SLocalTypes)
    requires
        s0.well_formed(),
        s1.roots == s0.roots,
        s1.len() == s0.len(),
    ensures
        keeps_classes(s0, s1),
{
}

/// Keeping classes is transitive.
pub proof fn lemma_keeps_trans(s0: SLocalTypes, s1: SLocalTypes, s2: SLocalTypes)
    requires
        s0.well_formed(),
        keeps_classes(s0, s1),
        keeps_classes(s1, s2),
    ensures
        keeps_classes(s0, s2),
{
    assert forall|i: int| 0 <= i < s0.len() implies #[trigger] s2.roots[i] == s2.roots[s0.roots[i]] by {
        let r0 = s0.roots[i];
        assert(s2.roots[i] == s2.roots[s1.roots[i]]);
        assert(s2.roots[r0] == s2.roots[s1.roots[r0]]);
        assert(s1.roots[i] == s1.roots[r0]);
    }
}

/// The name of the type that a class is bound to after it is bound to `tv`.
pub open spec fn bound_name(tv: STypeValue, old_name: Option<STypeValueName>) -> Option<
    STypeValueName,
> {
    match tv {
        STypeValue::Type(_, n, _) => Some(n),
        STypeValue::Param(_, _) => old_name,
    }
}

/// The members of the equation class of local type `i` that its entry knows: its root and the
/// local types that the entry names.
pub open spec fn class_members(s: SLocalTypes, i: int) -> Seq<LocalType> {
    seq![LocalType { idx: s.eq_roots[i] as usize }] + s.eq_entry_of(i).local_types
}

/// The entries after each type parameter among `ms` (taking each local type by its root) was
/// bound to a type named `name` whose arguments are the type values of the parameter's traits.
pub open spec fn bind_members(
    s: SLocalTypes,
    entries: Seq<SEntry>,
    ms: Seq<LocalType>,
    name: STypeValueName,
) -> Seq<SEntry>
    decreases ms.len(),
{
    if ms.len() == 0 {
        entries
    } else {
        let e = bind_members(s, entries, ms.drop_last(), name);
        let m = ms.last().idx as int;
        if m < s.len() {
            match e[s.roots[m]] {
                SEntry::Param(_, u, pe, _) => e.update(
                    s.roots[m],
                    SEntry::Type(STypeValue::Type(u, name, pe.type_values)),
                ),
                _ => e,
            }
        } else {
            e
        }
    }
}

pub proof fn lemma_bind_members_len(
    s: SLocalTypes,
    entries: Seq<SEntry>,
    ms: Seq<LocalType>,
    name: STypeValueName,
)
    requires
        s.well_formed(),
        entries.len() == s.len(),
    ensures
        bind_members(s, entries, ms, name).len() == entries.len(),
    decreases ms.len(),
{
    if ms.len() > 0 {
        lemma_bind_members_len(s, entries, ms.drop_last(), name);
    }
}

/// Binding the type parameters of an equation class leaves the local types bound to types as
/// they are.
pub proof fn lemma_bind_members_keeps_types(
    s: SLocalTypes,
    entries: Seq<SEntry>,
    ms: Seq<LocalType>,
    name: STypeValueName,
    k: int,
)
    requires
        s.well_formed(),
        entries.len() == s.len(),
        0 <= k < s.len(),
        entries[k] is Type,
    ensures
        bind_members(s, entries, ms, name)[k] == entries[k],
    decreases ms.len(),
{
    if ms.len() > 0 {
        lemma_bind_members_keeps_types(s, entries, ms.drop_last(), name, k);
        lemma_bind_members_len(s, entries, ms.drop_last(), name);
    }
}

/// The local types that an absorbed equation class adds to the class that absorbs it: those it
/// names and, when it stems from an equation, its root.
pub open spec fn absorbed_local_types(other: SEqEntry, other_root: int) -> Seq<LocalType> {
    if other.local_types.len() == 0 {
        other.local_types
    } else {
        other.local_types.push(LocalType { idx: other_root as usize })
    }
}

/// The entry of a class made of two equation classes, the class rooted at `other_root` being
/// absorbed: it occurs in a non-unique lambda or stems from a defined equation when either did,
/// and it names the local types that either named, and the absorbed root when the absorbed
/// class stems from an equation.
pub open spec fn merged_eq_entry(keep: SEqEntry, other: SEqEntry, other_root: int) -> SEqEntry {
    SEqEntry {
        type_value_name: if keep.type_value_name is Some {
            keep.type_value_name
        } else {
            other.type_value_name
        },
        is_in_non_uniq_lambda: keep.is_in_non_uniq_lambda || other.is_in_non_uniq_lambda,
        is_defined: keep.is_defined || other.is_defined,
        local_types: local_types_union(keep.local_types, absorbed_local_types(other, other_root)),
    }
}

pub open spec fn max_int(a: int, b: int) -> int {
    if a < b {
        b
    } else {
        a
    }
}

pub open spec fn min_int(a: int, b: int) -> int {
    if a < b {
        a
    } else {
        b
    }
}

impl LocalTypes {
    /// Replaces the entry kept at root `r`.
    fn set_entry_at(&mut self, r: usize, e: LocalTypeEntry)
        requires
            old(self).wf(),
            r < old(self)@.len(),
            old(self)@.roots[r as int] == r && e@ is Param ==> e@->Param_3.idx == r,
        ensures
            final(self).wf(),
            final(self)@ == (SLocalTypes { entries: old(self)@.entries.update(r as int, e@), ..old(self)@ }),
    {
        let ghost ev = e@;
        self.type_entries.set_value(r, e);
        proof {
            assert(self@.entries =~= old(self)@.entries.update(r as int, ev));
            assert(self@.roots =~= old(self)@.roots);
        }
    }

    /// Replaces the equation class entry kept at root `r`.
    fn set_eq_entry_at(&mut self, r: usize, e: EqTypeParamEntry)
        requires
            old(self).wf(),
            r < old(self)@.len(),
        ensures
            final(self).wf(),
            final(self)@ == (SLocalTypes { eq_entries: old(self)@.eq_entries.update(r as int, e@), ..old(self)@ }),
    {
        let ghost ev = e@;
        self.eq_type_param_entries.set_value(r, e);
        proof {
            assert(self@.eq_entries =~= old(self)@.eq_entries.update(r as int, ev));
            assert(self@.eq_roots =~= old(self)@.eq_roots);
        }
    }

    fn root_of(&self, i: usize) -> (r: usize)
        requires
            self.wf(),
            i < self@.len(),
        ensures
            r == self@.roots[i as int],
            r < self@.len(),
    {
        proof {
            self.lemma_wf();
        }
        self.type_entries.root_of(i)
    }

    fn eq_root_of(&self, i: usize) -> (r: usize)
        requires
            self.wf(),
            i < self@.len(),
        ensures
            r == self@.eq_roots[i as int],
            r < self@.len(),
    {
        proof {
            self.lemma_wf();
        }
        self.eq_type_param_entries.root_of(i)
    }

    /// Makes a local type a type parameter with `entry`; false when there is no such local type.
    pub fn set_type_param_entry(
        &mut self,
        local_type: LocalType,
        entry: TypeParamEntry,
        defined_flag: DefinedFlag,
    ) -> (r: bool)
        requires
            old(self).wf(),
        ensures
            final(self).wf(),
            final(self)@.len() == old(self)@.len(),
            r == (local_type.idx < old(self)@.len()),
            !r ==> final(self)@ == old(self)@,
            r ==> final(self)@ == (SLocalTypes {
                entries: old(self)@.entries.update(
                    old(self)@.roots[local_type.idx as int],
                    SEntry::Param(
                        defined_flag,
                        kept_uniq(old(self)@.entry_of(local_type.idx as int)),
                        entry@,
                        LocalType { idx: old(self)@.roots[local_type.idx as int] as usize },
                    ),
                ),
                ..old(self)@
            }),
            keeps_eq_flags(old(self)@, final(self)@),
            keeps_classes(old(self)@, final(self)@),
            final(self)@ == with_param_entry(old(self)@, local_type, entry@, defined_flag),
    {
        proof {
            self.lemma_wf();
        }
        if local_type.idx >= self.type_entries.len() {
            return false;
        }
        let r = self.root_of(local_type.idx);
        let u = match self.type_entries.value_at(r) {
            LocalTypeEntry::Param(_, u, _, _) => *u,
            LocalTypeEntry::Type(_) => UniqFlag::NonUniq,
        };
        self.set_entry_at(r, LocalTypeEntry::Param(defined_flag, u, entry, LocalType::new(r)));
        true
    }

    /// Makes a local type an undefined type parameter with `entry`. It keeps the number of the
    /// type parameter that it was; otherwise it is numbered after the type parameters made so far.
    pub fn set_type_param(&mut self, local_type: LocalType, entry: TypeParamEntry) -> (r: bool)
        requires
            old(self).wf(),
            old(self)@.param_count < usize::MAX,
        ensures
            keeps_classes(old(self)@, final(self)@),
            final(self).wf(),
            final(self)@.len() == old(self)@.len(),
            r == (local_type.idx < old(self)@.len()),
            !r ==> final(self)@ == old(self)@,
            r ==> {
                let s = old(self)@;
                let root = s.roots[local_type.idx as int];
                let (number, count) = match s.entry_of(local_type.idx as int) {
                    SEntry::Param(_, _, e, _) => (e.number, s.param_count),
                    SEntry::Type(_) => (Some((s.param_count + 1) as usize), s.param_count + 1),
                };
                final(self)@ == (SLocalTypes {
                    entries: s.entries.update(
                        root,
                        SEntry::Param(
                            DefinedFlag::Undefined,
                            kept_uniq(s.entry_of(local_type.idx as int)),
                            SParamEntry { number, ..entry@ },
                            LocalType { idx: root as usize },
                        ),
                    ),
                    param_count: count,
                    ..s
                })
            },
    {
        proof {
            self.lemma_wf();
        }
        if local_type.idx >= self.type_entries.len() {
            return false;
        }
        let r = self.root_of(local_type.idx);
        let mut entry = entry;
        let is_new = match self.type_entries.value_at(r) {
            LocalTypeEntry::Param(_, _, e, _) => {
                entry.number = e.number;
                false
            },
            LocalTypeEntry::Type(_) => {
                entry.number = Some(self.type_param_count + 1);
                true
            },
        };
        self.set_type_param_entry(local_type, entry, DefinedFlag::Undefined);
        if is_new {
            self.type_param_count = self.type_param_count + 1;
        }
        true
    }

    /// Binds a local type to a type value. When the type value is a type, its name becomes the
    /// name of the local type's equation class, and each other type parameter of the class that
    /// the class's entry names is bound to a type of that name whose arguments are the type
    /// values of the parameter's traits. False when there is no such local type.
    pub fn set_type_value(&mut self, local_type: LocalType, type_value: TypeValue) -> (r: bool)
        requires
            old(self).wf(),
        ensures
            final(self).wf(),
            final(self)@.len() == old(self)@.len(),
            r == (local_type.idx < old(self)@.len()),
            !r ==> final(self)@ == old(self)@,
            r ==> final(self)@.entry_of(local_type.idx as int) == SEntry::Type(type_value@),
            r ==> {
                let s = old(self)@;
                let bound = s.entries.update(s.roots[local_type.idx as int], SEntry::Type(type_value@));
                final(self)@ == (SLocalTypes {
                    entries: match type_value@ {
                        STypeValue::Type(_, n, _) => bind_members(
                            s,
                            bound,
                            class_members(s, local_type.idx as int),
                            n,
                        ),
                        STypeValue::Param(_, _) => bound,
                    },
                    eq_entries: s.eq_entries.update(
                        s.eq_roots[local_type.idx as int],
                        SEqEntry {
                            type_value_name: bound_name(
                                type_value@,
                                s.eq_entry_of(local_type.idx as int).type_value_name,
                            ),
                            ..s.eq_entry_of(local_type.idx as int)
                        },
                    ),
                    ..s
                })
            },
            keeps_eq_flags(old(self)@, final(self)@),
            keeps_classes(old(self)@, final(self)@),
            r ==> final(self)@ == with_type_value(old(self)@, local_type, type_value@),
    {
        proof {
            self.lemma_wf();
        }
        if local_type.idx >= self.type_entries.len() {
            return false;
        }
        proof {
            self.lemma_wf();
        }
        let ghost s0 = self@;
        let r = self.root_of(local_type.idx);
        let er = self.eq_root_of(local_type.idx);
        let mut eq = self.eq_type_param_entries.value_at(er).duplicate();
        let mut members: Vec<LocalType> = Vec::new();
        members.push(LocalType::new(er));
        let mut k: usize = 0;
        while k < eq.local_types.len()
            invariant
                k <= eq.local_types@.len(),
                members@ == seq![LocalType { idx: er }] + eq.local_types@.take(k as int),
            decreases eq.local_types@.len() - k,
        {
            members.push(eq.local_types[k]);
            k = k + 1;
            assert(members@ =~= seq![LocalType { idx: er }] + eq.local_types@.take(k as int));
        }
        assert(eq.local_types@.take(eq.local_types@.len() as int) =~= eq.local_types@);
        assert(members@ == class_members(s0, local_type.idx as int));
        let name = match &type_value {
            TypeValue::Type(_, n, _) => Some(n.duplicate()),
            TypeValue::Param(_, _) => None,
        };
        self.set_entry_at(r, LocalTypeEntry::Type(type_value));
        match name {
            Some(n) => {
                let ghost e1 = self@.entries;
                let ghost s1 = self@;
                let mut i: usize = 0;
                while i < members.len()
                    invariant
                        self.wf(),
                        i <= members@.len(),
                        s1.len() == s0.len(),
                        self@.len() == s0.len(),
                        e1.len() == s0.len(),
                        er < s0.len(),
                        s0.well_formed(),
                        self@ == (SLocalTypes { entries: bind_members(s0, e1, members@.take(i as int), n@), ..s1 }),
                        s1 == (SLocalTypes { entries: e1, ..s0 }),
                    decreases members@.len() - i,
                {
                    proof {
                        assert(members@.take(i + 1).drop_last() =~= members@.take(i as int));
                        self.lemma_wf();
                        lemma_bind_members_len(s0, e1, members@.take(i + 1), n@);
                    }
                    let m = members[i];
                    assert(members@.take(i + 1).last() == m);
                    if m.idx < self.type_entries.len() {
                        let r2 = self.root_of(m.idx);
                        let t = match self.type_entries.value_at(r2) {
                            LocalTypeEntry::Param(_, u, pe, _) => Some(
                                TypeValue::Type(*u, n.duplicate(), duplicate_type_values(&pe.type_values)),
                            ),
                            LocalTypeEntry::Type(_) => None,
                        };
                        match t {
                            Some(t) => {
                                self.set_entry_at(r2, LocalTypeEntry::Type(t));
                            },
                            None => {},
                        }
                    }
                    i = i + 1;
                }
                assert(members@.take(members@.len() as int) =~= members@);
                proof {
                    lemma_bind_members_keeps_types(s0, e1, members@, n@, r as int);
                }
                eq.type_value_name = Some(n);
            },
            None => {},
        }
        self.set_eq_entry_at(er, eq);
        true
    }

    /// Sets whether the equation class of a local type occurs in a non-unique lambda.
    pub fn set_in_non_uniq_lambda(&mut self, local_type: LocalType, is_in: bool) -> (r: bool)
        requires
            old(self).wf(),
        ensures
            final(self).wf(),
            final(self)@.len() == old(self)@.len(),
            r == (local_type.idx < old(self)@.len()),
            !r ==> final(self)@ == old(self)@,
            r ==> final(self)@ == (SLocalTypes {
                eq_entries: old(self)@.eq_entries.update(
                    old(self)@.eq_roots[local_type.idx as int],
                    SEqEntry {
                        is_in_non_uniq_lambda: is_in,
                        ..old(self)@.eq_entry_of(local_type.idx as int)
                    },
                ),
                ..old(self)@
            }),
            keeps_classes(old(self)@, final(self)@),
    {
        proof {
            self.lemma_wf();
        }
        if local_type.idx >= self.type_entries.len() {
            return false;
        }
        let er = self.eq_root_of(local_type.idx);
        let mut eq = self.eq_type_param_entries.value_at(er).duplicate();
        eq.is_in_non_uniq_lambda = is_in;
        self.set_eq_entry_at(er, eq);
        true
    }

    /// Sets whether the equation class of a local type stems from an equation of a defined type.
    pub fn set_defined_type_param_eq(&mut self, local_type: LocalType, is_defined: bool) -> (r:
        bool)
        requires
            old(self).wf(),
        ensures
            final(self).wf(),
            final(self)@.len() == old(self)@.len(),
            r == (local_type.idx < old(self)@.len()),
            !r ==> final(self)@ == old(self)@,
            r ==> final(self)@ == (SLocalTypes {
                eq_entries: old(self)@.eq_entries.update(
                    old(self)@.eq_roots[local_type.idx as int],
                    SEqEntry { is_defined, ..old(self)@.eq_entry_of(local_type.idx as int) },
                ),
                ..old(self)@
            }),
            keeps_classes(old(self)@, final(self)@),
    {
        proof {
            self.lemma_wf();
        }
        if local_type.idx >= self.type_entries.len() {
            return false;
        }
        let er = self.eq_root_of(local_type.idx);
        let mut eq = self.eq_type_param_entries.value_at(er).duplicate();
        eq.is_defined = is_defined;
        self.set_eq_entry_at(er, eq);
        true
    }

    /// Whether the equation class of a local type occurs in a non-unique lambda.
    pub fn has_in_non_uniq_lambda(&self, local_type: LocalType) -> (r: bool)
        requires
            self.wf(),
        ensures
            r == (local_type.idx < self@.len() && self@.eq_entry_of(
                local_type.idx as int,
            ).is_in_non_uniq_lambda),
    {
        if local_type.idx >= self.type_entries.len() {
            return false;
        }
        let er = self.eq_root_of(local_type.idx);
        self.eq_type_param_entries.value_at(er).is_in_non_uniq_lambda
    }

    /// Whether the equation class of a local type stems from an equation of a defined type.
    pub fn has_defined_type_param_eq(&self, local_type: LocalType) -> (r: bool)
        requires
            self.wf(),
        ensures
            r == (local_type.idx < self@.len() && self@.eq_entry_of(local_type.idx as int).is_defined),
    {
        if local_type.idx >= self.type_entries.len() {
            return false;
        }
        let er = self.eq_root_of(local_type.idx);
        self.eq_type_param_entries.value_at(er).is_defined
    }

    /// Whether two local types are in one equation class.
    pub fn has_eq_type_params(&self, local_type1: LocalType, local_type2: LocalType) -> (r: bool)
        requires
            self.wf(),
        ensures
            r == (local_type1.idx < self@.len() && local_type2.idx < self@.len()
                && self@.eq_roots[local_type1.idx as int] == self@.eq_roots[local_type2.idx as int]),
    {
        if local_type1.idx >= self.type_entries.len() || local_type2.idx >= self.type_entries.len() {
            return false;
        }
        self.eq_root_of(local_type1.idx) == self.eq_root_of(local_type2.idx)
    }

    /// The entry of the equation class of a local type.
    pub fn eq_type_param_entry(&self, local_type: LocalType) -> (r: Option<&EqTypeParamEntry>)
        requires
            self.wf(),
        ensures
            r is Some <==> local_type.idx < self@.len(),
            r matches Some(e) ==> e@ == self@.eq_entry_of(local_type.idx as int),
    {
        if local_type.idx >= self.type_entries.len() {
            return None;
        }
        let er = self.eq_root_of(local_type.idx);
        Some(self.eq_type_param_entries.value_at(er))
    }

    /// The root of the equation class of a local type and the local types that its equation
    /// names besides the root.
    pub fn eq_root_local_type_and_eq_local_types(&self, local_type: LocalType) -> (r: Option<
        (LocalType, Vec<LocalType>),
    >)
        requires
            self.wf(),
        ensures
            r is Some <==> local_type.idx < self@.len(),
            r matches Some((root, lts)) ==> root.idx == self@.eq_roots[local_type.idx as int]
                && lts@ == self@.eq_entry_of(local_type.idx as int).local_types,
    {
        if local_type.idx >= self.type_entries.len() {
            return None;
        }
        let er = self.eq_root_of(local_type.idx);
        let lts = self.eq_type_param_entries.value_at(er).local_types.clone();
        assert(lts@ =~= self@.eq_entry_of(local_type.idx as int).local_types);
        Some((LocalType::new(er), lts))
    }

    /// Puts the class of root `a` into the class of root `b` (of greater index).
    fn link_types(&mut self, a: usize, b: usize)
        requires
            old(self).wf(),
            a < b < old(self)@.len(),
            old(self)@.roots[a as int] == a,
            old(self)@.roots[b as int] == b,
        ensures
            final(self).wf(),
            final(self)@ == (SLocalTypes { roots: relink(old(self)@.roots, a as int, b as int), ..old(self)@ }),
    {
        self.type_entries.link(a, b);
        proof {
            assert(self@.roots =~= relink(old(self)@.roots, a as int, b as int));
            assert(self@.entries =~= old(self)@.entries);
        }
    }

    /// Puts the equation class of root `a` into that of root `b` (of greater index).
    fn link_eqs(&mut self, a: usize, b: usize)
        requires
            old(self).wf(),
            a < b < old(self)@.len(),
            old(self)@.eq_roots[a as int] == a,
            old(self)@.eq_roots[b as int] == b,
        ensures
            final(self).wf(),
            final(self)@ == (SLocalTypes { eq_roots: relink(old(self)@.eq_roots, a as int, b as int), ..old(self)@ }),
    {
        self.eq_type_param_entries.link(a, b);
        proof {
            assert(self@.eq_roots =~= relink(old(self)@.eq_roots, a as int, b as int));
            assert(self@.eq_entries =~= old(self)@.eq_entries);
        }
    }

    /// Unifies the classes of two local types; the class of the greater root keeps its entry.
    /// Also merges their equation classes. Returns the roots of the merged classes.
    pub fn join_local_types(&mut self, local_type1: LocalType, local_type2: LocalType) -> (r:
        Option<(LocalType, LocalType)>)
        requires
            old(self).wf(),
        ensures
            final(self).wf(),
            final(self)@.len() == old(self)@.len(),
            r is Some <==> (local_type1.idx < old(self)@.len() && local_type2.idx < old(self)@.len()),
            r is None ==> final(self)@ == old(self)@,
            r is Some ==> final(self)@.roots[local_type1.idx as int] == final(self)@.roots[local_type2.idx as int]
                && final(self)@.eq_roots[local_type1.idx as int] == final(self)@.eq_roots[local_type2.idx as int],
            r matches Some((root, eq_root)) ==> {
                let s = old(self)@;
                let ra = s.roots[local_type1.idx as int];
                let rb = s.roots[local_type2.idx as int];
                let ea = s.eq_roots[local_type1.idx as int];
                let eb = s.eq_roots[local_type2.idx as int];
                &&& root.idx == max_int(ra, rb)
                &&& eq_root.idx == max_int(ea, eb)
                &&& final(self)@ == (SLocalTypes {
                    entries: s.entries,
                    roots: if ra == rb {
                        s.roots
                    } else {
                        relink(s.roots, min_int(ra, rb), max_int(ra, rb))
                    },
                    eq_entries: if ea == eb {
                        s.eq_entries
                    } else {
                        s.eq_entries.update(
                            max_int(ea, eb),
                            merged_eq_entry(
                                s.eq_entries[max_int(ea, eb)],
                                s.eq_entries[min_int(ea, eb)],
                                min_int(ea, eb),
                            ),
                        )
                    },
                    eq_roots: if ea == eb {
                        s.eq_roots
                    } else {
                        relink(s.eq_roots, min_int(ea, eb), max_int(ea, eb))
                    },
                    orig: s.orig,
                    param_count: s.param_count,
                })
            },
            keeps_eq_flags(old(self)@, final(self)@),
            keeps_classes(old(self)@, final(self)@),
            r matches Some((root, eq_root)) ==> final(self)@ == joined(old(self)@, local_type1, local_type2)
                && root.idx == join_root(old(self)@, local_type1, local_type2) && eq_root.idx == join_eq_root(
                old(self)@,
                local_type1,
                local_type2,
            ),
            r matches Some((_, eq_root)) ==> {
                let s = old(self)@;
                let e = final(self)@.eq_entries[eq_root.idx as int];
                &&& final(self)@.eq_roots[eq_root.idx as int] == eq_root.idx
                &&& e.is_in_non_uniq_lambda == (s.eq_entry_of(local_type1.idx as int).is_in_non_uniq_lambda
                    || s.eq_entry_of(local_type2.idx as int).is_in_non_uniq_lambda)
                &&& e.is_defined == (s.eq_entry_of(local_type1.idx as int).is_defined || s.eq_entry_of(
                    local_type2.idx as int,
                ).is_defined)
            },
    {
        proof {
            self.lemma_wf();
        }
        if local_type1.idx >= self.type_entries.len() || local_type2.idx >= self.type_entries.len() {
            return None;
        }
        proof {
            self.lemma_wf();
        }
        let ra = self.root_of(local_type1.idx);
        let rb = self.root_of(local_type2.idx);
        let ea = self.eq_root_of(local_type1.idx);
        let eb = self.eq_root_of(local_type2.idx);
        let root = if ra < rb { rb } else { ra };
        if ra < rb {
            self.link_types(ra, rb);
        } else if rb < ra {
            self.link_types(rb, ra);
        }
        let eq_root = if ea < eb { eb } else { ea };
        if ea != eb {
            let lo = if ea < eb { ea } else { eb };
            let keep = self.eq_type_param_entries.value_at(eq_root);
            let other = self.eq_type_param_entries.value_at(lo);
            let name = match &keep.type_value_name {
                Some(n) => Some(n.duplicate()),
                None => match &other.type_value_name {
                    Some(n) => Some(n.duplicate()),
                    None => None,
                },
            };
            let mut absorbed = other.local_types.clone();
            if absorbed.len() > 0 {
                absorbed.push(LocalType::new(lo));
            }
            assert(absorbed@ =~= absorbed_local_types(old(self)@.eq_entries[lo as int], lo as int));
            let merged = EqTypeParamEntry {
                type_value_name: name,
                is_in_non_uniq_lambda: keep.is_in_non_uniq_lambda || other.is_in_non_uniq_lambda,
                is_defined: keep.is_defined || other.is_defined,
                local_types: union_local_types(&keep.local_types, &absorbed),
            };
            assert(merged@ == merged_eq_entry(
                old(self)@.eq_entries[eq_root as int],
                old(self)@.eq_entries[lo as int],
                lo as int,
            ));
            self.set_eq_entry_at(eq_root, merged);
            self.link_eqs(lo, eq_root);
        }
        Some((LocalType::new(root), LocalType::new(eq_root)))
    }
}

/// The table after local type `i` was made unique: a type parameter moves to a new local type,
/// which the root of `i` is bound to uniquely and which joins its equation class; a type value
/// becomes unique.
pub open spec fn after_set_uniq(s: SLocalTypes, i: int) -> SLocalTypes {
    let n = s.len() as int;
    let root = s.roots[i];
    let er = s.eq_roots[i];
    match s.entry_of(i) {
        SEntry::Param(d, u, e, _) => SLocalTypes {
            entries: s.entries.update(
                root,
                SEntry::Type(STypeValue::Param(UniqFlag::Uniq, LocalType { idx: n as usize })),
            ).push(SEntry::Param(d, u, e, LocalType { idx: n as usize })),
            roots: s.roots.push(n),
            eq_entries: s.eq_entries.push(s.eq_entries[er]),
            eq_roots: relink(s.eq_roots.push(n), er, n),
            orig: s.orig,
            param_count: s.param_count,
        },
        SEntry::Type(t) => SLocalTypes {
            entries: s.entries.update(root, SEntry::Type(stv_with_uniq(t, UniqFlag::Uniq))),
            ..s
        },
    }
}

/// The uniqueness of what a type value stands for by itself.
pub open spec fn entry_uniq(e: Option<SEntry>) -> Option<UniqFlag> {
    match e {
        Some(SEntry::Param(_, u, _, _)) => Some(u),
        Some(SEntry::Type(STypeValue::Type(u, _, _))) => Some(u),
        _ => None,
    }
}

/// What a unique type value stands for is unique, if it stands for anything.
pub proof fn lemma_resolve_uniq(s: SLocalTypes, tv: STypeValue, fuel: nat)
    requires
        crate::types::stv_uniq(tv) == UniqFlag::Uniq,
    ensures
        entry_uniq(s.resolve(tv, fuel)) matches Some(u) ==> u == UniqFlag::Uniq,
    decreases fuel,
{
    match tv {
        STypeValue::Type(_, _, _) => {},
        STypeValue::Param(u, l) => {
            if l.idx < s.len() {
                match s.entry_of(l.idx as int) {
                    SEntry::Param(_, _, _, _) => {},
                    SEntry::Type(t) => match t {
                        STypeValue::Param(u3, l3) => {
                            if fuel > 0 {
                                lemma_resolve_uniq(s, STypeValue::Param(uniq_or(u, u3), l3), (fuel - 1) as nat);
                            }
                        },
                        STypeValue::Type(_, _, _) => {},
                    },
                }
            }
        },
    }
}

impl LocalTypes {
    /// Makes a local type unique. A type parameter moves to a new local type, which the given
    /// one is bound to uniquely and shares the equation class with; a type value becomes unique.
    pub fn set_uniq(&mut self, local_type: LocalType) -> (r: bool)
        requires
            old(self).wf(),
            old(self)@.len() < usize::MAX,
        ensures
            final(self).wf(),
            final(self)@.len() == old(self)@.len() || final(self)@.len() == old(self)@.len() + 1,
            r == (local_type.idx < old(self)@.len()),
            !r ==> final(self)@ == old(self)@,
            r ==> final(self)@ == after_set_uniq(old(self)@, local_type.idx as int),
            r && old(self)@.entry_of(local_type.idx as int) is Param ==> entry_uniq(
                final(self)@.entry_for(STypeValue::Param(UniqFlag::NonUniq, local_type)),
            ) == Some(UniqFlag::Uniq),
            r ==> (entry_uniq(final(self)@.entry_for(STypeValue::Param(UniqFlag::NonUniq, local_type)))
                matches Some(u) ==> u == UniqFlag::Uniq),
            keeps_eq_flags(old(self)@, final(self)@),
            keeps_classes(old(self)@, final(self)@),
    {
        proof {
            self.lemma_wf();
        }
        if local_type.idx >= self.type_entries.len() {
            return false;
        }
        proof {
            self.lemma_wf();
        }
        let r = self.root_of(local_type.idx);
        let er = self.eq_root_of(local_type.idx);
        let n = self.type_entries.len();
        let ghost s = self@;
        match self.type_entries.value_at(r) {
            LocalTypeEntry::Param(d, u, e, _) => {
                let moved = LocalTypeEntry::Param(*d, *u, e.duplicate(), LocalType::new(n));
                let eq_copy = self.eq_type_param_entries.value_at(er).duplicate();
                self.push_entry(moved);
                let ghost s1 = self@;
                self.set_entry_at(r, LocalTypeEntry::Type(TypeValue::Param(UniqFlag::Uniq, LocalType::new(n))));
                self.set_eq_entry_at(n, eq_copy);
                proof {
                    self.lemma_wf();
                    assert(self@.eq_roots[er as int] == er);
                    assert(self@.eq_roots[n as int] == n);
                }
                self.link_eqs(er, n);
                proof {
                    let t = SEntry::Type(STypeValue::Param(UniqFlag::Uniq, LocalType { idx: n }));
                    assert(self@.entries =~= s.entries.update(r as int, t).push(
                        s1.entries[n as int],
                    ));
                    assert(self@.eq_entries =~= s.eq_entries.push(s.eq_entries[er as int]));
                }
            },
            LocalTypeEntry::Type(t) => {
                let t2 = t.with_uniq(UniqFlag::Uniq);
                self.set_entry_at(r, LocalTypeEntry::Type(t2));
            },
        }
        proof {
            let f = self@;
            let tv0 = STypeValue::Param(UniqFlag::NonUniq, local_type);
            assert(f.roots[local_type.idx as int] == r);
            match f.entries[r as int] {
                SEntry::Type(STypeValue::Param(u3, l3)) => {
                    lemma_resolve_uniq(
                        f,
                        STypeValue::Param(uniq_or(UniqFlag::NonUniq, u3), l3),
                        (f.len() - 1) as nat,
                    );
                },
                _ => {},
            }
        }
        true
    }
}

/// A parameter entry with other trait names.
pub open spec fn with_trait_names(e: SEntry, names: Seq<STraitName>) -> SEntry {
    match e {
        SEntry::Param(d, u, p, l) => SEntry::Param(d, u, SParamEntry { trait_names: names, ..p }, l),
        SEntry::Type(t) => SEntry::Type(t),
    }
}

impl LocalTypes {
    /// Replaces the trait names of the type parameter entry of a local type; false when the local
    /// type is not a type parameter.
    pub fn set_trait_names(&mut self, local_type: LocalType, names: Vec<TraitName>) -> (r: bool)
        requires
            old(self).wf(),
        ensures
            final(self).wf(),
            final(self)@.len() == old(self)@.len(),
            r == (local_type.idx < old(self)@.len() && old(self)@.entry_of(local_type.idx as int) is Param),
            !r ==> final(self)@ == old(self)@,
            r ==> final(self)@ == (SLocalTypes {
                entries: old(self)@.entries.update(
                    old(self)@.roots[local_type.idx as int],
                    with_trait_names(old(self)@.entry_of(local_type.idx as int), trait_names_view(names@)),
                ),
                ..old(self)@
            }),
            keeps_eq_flags(old(self)@, final(self)@),
            keeps_classes(old(self)@, final(self)@),
    {
        proof {
            self.lemma_wf();
        }
        if local_type.idx >= self.type_entries.len() {
            return false;
        }
        let r = self.root_of(local_type.idx);
        let new_entry = match self.type_entries.value_at(r) {
            LocalTypeEntry::Param(d, u, e, l) => {
                let mut e2 = e.duplicate();
                e2.trait_names = names;
                LocalTypeEntry::Param(*d, *u, e2, *l)
            },
            LocalTypeEntry::Type(_) => {
                return false;
            },
        };
        self.set_entry_at(r, new_entry);
        true
    }

    /// A copy of the table.
    pub fn duplicate(&self) -> (r: LocalTypes)
        requires
            self.wf(),
        ensures
            r.wf(),
            r@ == self@,
    {
        proof {
            self.lemma_wf();
        }
        let n = self.type_entries.len();
        let mut values: Vec<LocalTypeEntry> = Vec::new();
        let mut eq_values: Vec<EqTypeParamEntry> = Vec::new();
        let mut i: usize = 0;
        while i < n
            invariant
                self.wf(),
                n == self@.len(),
                i <= n,
                values@.len() == i,
                eq_values@.len() == i,
                forall|j: int| 0 <= j < i ==> #[trigger] values@[j]@ == self@.entries[j],
                forall|j: int| 0 <= j < i ==> #[trigger] eq_values@[j]@ == self@.eq_entries[j],
            decreases n - i,
        {
            values.push(self.type_entries.value_at(i).duplicate());
            eq_values.push(self.eq_type_param_entries.value_at(i).duplicate());
            i = i + 1;
        }
        let mut orig: Vec<Vec<LocalType>> = Vec::new();
        let mut k: usize = 0;
        while k < self.orig_eq_type_param_set.len()
            invariant
                k <= self.orig_eq_type_param_set@.len(),
                orig@.len() == k,
                forall|j: int| 0 <= j < k ==> #[trigger] orig@[j]@ == self.orig_eq_type_param_set@[j]@,
            decreases self.orig_eq_type_param_set@.len() - k,
        {
            let c = self.orig_eq_type_param_set[k].clone();
            assert(c@ =~= self.orig_eq_type_param_set@[k as int]@);
            orig.push(c);
            k = k + 1;
        }
        proof {
            self.type_entries.lemma_wf();
            self.eq_type_param_entries.lemma_wf();
        }
        let parents = self.type_entries.parents_vec().clone();
        let eq_parents = self.eq_type_param_entries.parents_vec().clone();
        assert(parents@ =~= self.type_entries.parents());
        assert(eq_parents@ =~= self.eq_type_param_entries.parents());
        let r = LocalTypes {
            type_entries: UnionFind::from_parts(values, parents),
            eq_type_param_entries: UnionFind::from_parts(eq_values, eq_parents),
            orig_eq_type_param_set: orig,
            type_param_count: self.type_param_count,
        };
        proof {
            assert(r@.entries =~= self@.entries);
            assert(r@.roots =~= self@.roots);
            assert(r@.eq_entries =~= self@.eq_entries);
            assert(r@.eq_roots =~= self@.eq_roots);
            assert(r@.orig =~= self@.orig);
        }
        r
    }
}

/// The equation set of parameter `i`, empty where there is none.
pub open spec fn eq_set_at(sets: Seq<Seq<LocalType>>, i: int) -> Seq<LocalType> {
    if 0 <= i < sets.len() {
        sets[i]
    } else {
        Seq::empty()
    }
}

/// The greatest index below `n` in an equation set of parameter `i`, and `i` when none is
/// greater: the parameter whose local type roots the class.
pub open spec fn eq_top(set: Seq<LocalType>, i: int, n: int) -> int
    decreases set.len(),
{
    if set.len() == 0 {
        i
    } else {
        let t = eq_top(set.drop_last(), i, n);
        let j = set.last().idx as int;
        if j < n && t < j {
            j
        } else {
            t
        }
    }
}

/// The local types (after `base`) of the members of an equation set of parameter `i` other
/// than `i`, in their order.
pub open spec fn eq_members(set: Seq<LocalType>, i: int, n: int, base: int) -> Seq<LocalType>
    decreases set.len(),
{
    if set.len() == 0 {
        Seq::empty()
    } else {
        let r = eq_members(set.drop_last(), i, n, base);
        let j = set.last().idx as int;
        if j < n && j != i {
            r.push(LocalType { idx: (base + j) as usize })
        } else {
            r
        }
    }
}

/// The root parameter of the class of parameter `i`.
pub open spec fn eq_root_param(sets: Seq<Seq<LocalType>>, i: int, n: int) -> int {
    eq_top(eq_set_at(sets, i), i, n)
}

/// Whether the equation sets of `n` parameters name classes: the root parameter of a class is
/// its own root.
pub open spec fn eqs_consistent(sets: Seq<Seq<LocalType>>, n: int) -> bool {
    forall|i: int|
        0 <= i < n ==> eq_root_param(sets, #[trigger] eq_root_param(sets, i, n), n) == eq_root_param(
            sets,
            i,
            n,
        )
}

/// Where following, from parameter `i`, the root parameter that the equation set of each
/// parameter below `m` names (see `eq_root_param`) stops.
pub open spec fn eq_chain(sets: Seq<Seq<LocalType>>, i: int, n: int, m: int) -> int
    decreases n - i,
{
    if 0 <= i < m && i < eq_root_param(sets, i, n) < n {
        eq_chain(sets, eq_root_param(sets, i, n), n, m)
    } else {
        i
    }
}

/// The root parameter of the equation class of parameter `i` among `n` parameters: where
/// following the root parameters that the equation sets name stops.
pub open spec fn eq_class_root(sets: Seq<Seq<LocalType>>, i: int, n: int) -> int {
    eq_chain(sets, i, n, n)
}

/// The highest parameter that an equation set of parameter `i` names is `i` or above.
pub proof fn lemma_eq_top_range(set: Seq<LocalType>, i: int, n: int)
    requires
        0 <= i < n,
    ensures
        i <= eq_top(set, i, n) < n,
    decreases set.len(),
{
    if set.len() > 0 {
        lemma_eq_top_range(set.drop_last(), i, n);
    }
}

/// Following one more parameter's set moves a chain that stopped at `m` on to the root
/// parameter that `m`'s set names.
pub proof fn lemma_eq_chain_step(sets: Seq<Seq<LocalType>>, k: int, n: int, m: int)
    requires
        0 <= k < n,
        0 <= m < n,
    ensures
        eq_chain(sets, k, n, m + 1) == if eq_chain(sets, k, n, m) == m && m < eq_root_param(
            sets,
            m,
            n,
        ) < n {
            eq_root_param(sets, m, n)
        } else {
            eq_chain(sets, k, n, m)
        },
        k <= eq_chain(sets, k, n, m) < n,
    decreases n - k,
{
    let t = eq_root_param(sets, k, n);
    if k < m && k < t < n {
        lemma_eq_chain_step(sets, t, n, m);
    } else if k == m && k < t < n {
        assert(eq_chain(sets, t, n, m + 1) == t);
    }
}

/// Where the equation sets name classes, the root parameter of a class is the one that the set
/// of each of its parameters names.
pub proof fn law_consistent_eq_sets_give_class_roots(sets: Seq<Seq<LocalType>>, i: int, n: int)
    requires
        eqs_consistent(sets, n),
        0 <= i < n,
    ensures
        eq_class_root(sets, i, n) == eq_root_param(sets, i, n),
{
    lemma_eq_top_range(eq_set_at(sets, i), i, n);
    let t = eq_root_param(sets, i, n);
    if i < t {
        assert(eq_root_param(sets, t, n) == t);
        assert(eq_chain(sets, t, n, n) == t);
    }
}

/// The root parameter of the class of parameter `i`.
fn eq_top_of(set: &Vec<LocalType>, i: usize, n: usize) -> (r: usize)
    requires
        i < n,
    ensures
        r == eq_top(set@, i as int, n as int),
        i <= r < n,
{
    let mut t = i;
    let mut k: usize = 0;
    while k < set.len()
        invariant
            i < n,
            k <= set@.len(),
            t == eq_top(set@.take(k as int), i as int, n as int),
            i <= t < n,
        decreases set@.len() - k,
    {
        proof {
            assert(set@.take(k + 1).drop_last() =~= set@.take(k as int));
        }
        let j = set[k].idx;
        if j < n && t < j {
            t = j;
        }
        k = k + 1;
    }
    assert(set@.take(set@.len() as int) =~= set@);
    t
}

/// The local types (after `base`) of the other members of the class of parameter `i`.
fn eq_members_of(set: &Vec<LocalType>, i: usize, n: usize, base: usize) -> (r: Vec<LocalType>)
    requires
        base + n <= usize::MAX,
    ensures
        r@ == eq_members(set@, i as int, n as int, base as int),
{
    let mut r: Vec<LocalType> = Vec::new();
    let mut k: usize = 0;
    while k < set.len()
        invariant
            base + n <= usize::MAX,
            k <= set@.len(),
            r@ == eq_members(set@.take(k as int), i as int, n as int, base as int),
        decreases set@.len() - k,
    {
        proof {
            assert(set@.take(k + 1).drop_last() =~= set@.take(k as int));
        }
        let j = set[k].idx;
        if j < n && j != i {
            r.push(LocalType::new(base + j));
        }
        k = k + 1;
    }
    assert(set@.take(set@.len() as int) =~= set@);
    r
}

/// The entry of an equation class that equations of a type make.
pub open spec fn eqs_class_entry(members: Seq<LocalType>, is_defined: bool) -> SEqEntry {
    SEqEntry {
        type_value_name: None,
        is_in_non_uniq_lambda: false,
        is_defined,
        local_types: members,
    }
}

impl LocalTypes {
    /// Puts the local types `base + i` (`i < n`), each its own equation class so far, into the
    /// equation classes that `sets` names: the class of parameter `i` is rooted at the local type
    /// of its root parameter, whose entry lists the other members.
    fn set_param_eqs(&mut self, base: usize, n: usize, sets: &Vec<Vec<LocalType>>, is_defined: bool)
        requires
            old(self).wf(),
            base + n <= old(self)@.len(),
            forall|k: int| base <= k < base + n ==> #[trigger] old(self)@.eq_roots[k] == k,
            forall|k: int| 0 <= k < base ==> #[trigger] old(self)@.eq_roots[k] < base,
        ensures
            final(self).wf(),
            final(self)@.entries == old(self)@.entries,
            final(self)@.roots == old(self)@.roots,
            final(self)@.orig == old(self)@.orig,
            final(self)@.param_count == old(self)@.param_count,
            final(self)@.eq_entries.len() == old(self)@.eq_entries.len(),
            final(self)@.eq_roots.len() == old(self)@.eq_roots.len(),
            forall|k: int|
                0 <= k < old(self)@.len() && !(base <= k < base + n) ==> #[trigger] final(self)@.eq_roots[k]
                    == old(self)@.eq_roots[k] && final(self)@.eq_entries[k] == old(self)@.eq_entries[k],
            forall|i: int|
                0 <= i < n ==> {
                    &&& #[trigger] final(self)@.eq_roots[base + i] == base + eq_class_root(
                        local_type_sets_view(sets@),
                        i,
                        n as int,
                    )
                    &&& eq_root_param(local_type_sets_view(sets@), i, n as int) == i
                        ==> final(self)@.eq_entries[base + i] == eqs_class_entry(
                        eq_members(eq_set_at(local_type_sets_view(sets@), i), i, n as int, base as int),
                        is_defined,
                    )
                },
    {
        let ghost sv = local_type_sets_view(sets@);
        let ghost s0 = self@;
        proof {
            self.lemma_wf();
        }
        let total = self.len();
        let mut i: usize = 0;
        while i < n
            invariant
                self.wf(),
                sv == local_type_sets_view(sets@),
                i <= n,
                base + n <= s0.len(),
                s0.len() == total,
                self@.len() == s0.len(),
                self@.entries == s0.entries,
                self@.roots == s0.roots,
                self@.orig == s0.orig,
                self@.param_count == s0.param_count,
                self@.eq_entries == s0.eq_entries,
                self@.eq_roots.len() == s0.eq_roots.len(),
                forall|k: int| 0 <= k < base ==> #[trigger] s0.eq_roots[k] < base,
                forall|k: int|
                    0 <= k < s0.len() && !(base <= k < base + n) ==> #[trigger] self@.eq_roots[k]
                        == s0.eq_roots[k],
                forall|k: int| i <= k < n ==> #[trigger] self@.eq_roots[base + k] == base + k,
                forall|k: int|
                    0 <= k < n ==> #[trigger] self@.eq_roots[base + k] == base + eq_chain(
                        sv,
                        k,
                        n as int,
                        i as int,
                    ),
            decreases n - i,
        {
            let set: &Vec<LocalType> = if i < sets.len() {
                &sets[i]
            } else {
                &Vec::new()
            };
            assert(set@ == eq_set_at(sv, i as int));
            let t = eq_top_of(set, i, n);
            proof {
                self.lemma_wf();
            }
            if i < t {
                let ghost s1 = self@;
                assert(s1.eq_roots[base + i] == base + i);
                assert(s1.eq_roots[base + t] == base + t);
                self.link_eqs(base + i, base + t);
                proof {
                    assert forall|k: int|
                        0 <= k < s0.len() && !(base <= k < base + n) implies #[trigger] self@.eq_roots[k]
                        == s0.eq_roots[k] by {
                        if k < base {
                            assert(s0.eq_roots[k] < base);
                        } else {
                            assert(s1.eq_roots[k] >= k);
                        }
                    }
                    assert forall|k: int| i + 1 <= k < n implies #[trigger] self@.eq_roots[base + k]
                        == base + k by {
                        assert(s1.eq_roots[base + k] == base + k);
                    }
                    assert forall|k: int| 0 <= k < n implies #[trigger] self@.eq_roots[base + k] == base
                        + eq_chain(sv, k, n as int, i + 1) by {
                        lemma_eq_chain_step(sv, k, n as int, i as int);
                        assert(s1.eq_roots[base + k] == base + eq_chain(sv, k, n as int, i as int));
                    }
                }
            } else {
                proof {
                    assert forall|k: int| 0 <= k < n implies #[trigger] self@.eq_roots[base + k] == base
                        + eq_chain(sv, k, n as int, i + 1) by {
                        lemma_eq_chain_step(sv, k, n as int, i as int);
                    }
                }
            }
            i = i + 1;
        }
        let ghost s2 = self@;
        let mut i: usize = 0;
        while i < n
            invariant
                self.wf(),
                sv == local_type_sets_view(sets@),
                i <= n,
                base + n <= s0.len(),
                s0.len() == total,
                self@.len() == s0.len(),
                self@.entries == s0.entries,
                self@.roots == s0.roots,
                self@.orig == s0.orig,
                self@.param_count == s0.param_count,
                self@.eq_roots == s2.eq_roots,
                self@.eq_entries.len() == s0.eq_entries.len(),
                forall|k: int|
                    0 <= k < s0.len() && !(base <= k < base + n) ==> #[trigger] self@.eq_entries[k]
                        == s0.eq_entries[k],
                forall|k: int|
                    0 <= k < i ==> eq_root_param(sv, k, n as int) == k ==> #[trigger] self@.eq_entries[base
                        + k] == eqs_class_entry(
                        eq_members(eq_set_at(sv, k), k, n as int, base as int),
                        is_defined,
                    ),
            decreases n - i,
        {
            let set: &Vec<LocalType> = if i < sets.len() {
                &sets[i]
            } else {
                &Vec::new()
            };
            assert(set@ == eq_set_at(sv, i as int));
            let t = eq_top_of(set, i, n);
            if t == i {
                let members = eq_members_of(set, i, n, base);
                let e = EqTypeParamEntry {
                    type_value_name: None,
                    is_in_non_uniq_lambda: false,
                    is_defined,
                    local_types: members,
                };
                self.set_eq_entry_at(base + i, e);
            }
            i = i + 1;
        }
    }
}

/// The entries of type parameters with entries `es` put at local types from `base` on.
pub open spec fn param_entries_at(es: Seq<SParamEntry>, d: DefinedFlag, base: int) -> Seq<SEntry> {
    Seq::new(
        es.len(),
        |i: int| SEntry::Param(d, UniqFlag::NonUniq, es[i], LocalType { idx: (base + i) as usize }),
    )
}

/// The indices from `base` on, `n` of them.
pub open spec fn indices_from(base: int, n: nat) -> Seq<int> {
    Seq::new(n, |i: int| base + i)
}

/// The equation classes after the type parameters of a type were put at the local types from
/// `s0.len()` on (`n` of them, and other local types after them): the local types before are
/// untouched, those after the parameters are classes of their own, and where the equation sets
/// name classes, each parameter is in the class of its root parameter, whose entry lists the
/// other members.
pub open spec fn eq_classes_put(
    s0: SLocalTypes,
    s: SLocalTypes,
    sets: Seq<Seq<LocalType>>,
    n: int,
    is_defined: bool,
) -> bool {
    let base = s0.len() as int;
    &&& s.eq_entries.len() == s.len()
    &&& s.eq_roots.len() == s.len()
    &&& forall|k: int|
        0 <= k < base ==> #[trigger] s.eq_roots[k] == s0.eq_roots[k] && s.eq_entries[k]
            == s0.eq_entries[k]
    &&& forall|k: int|
        base + n <= k < s.len() ==> #[trigger] s.eq_roots[k] == k && s.eq_entries[k]
            == default_eq_entry()
    &&& forall|i: int|
        0 <= i < n ==> {
            &&& #[trigger] s.eq_roots[base + i] == base + eq_class_root(sets, i, n)
            &&& eq_root_param(sets, i, n) == i ==> s.eq_entries[base + i] == eqs_class_entry(
                eq_members(eq_set_at(sets, i), i, n, base),
                is_defined,
            )
        }
}

/// A copy of sets of local types.
fn duplicate_local_type_sets(v: &Vec<Vec<LocalType>>) -> (r: Vec<Vec<LocalType>>)
    ensures
        local_type_sets_view(r@) == local_type_sets_view(v@),
{
    let mut r: Vec<Vec<LocalType>> = Vec::new();
    let mut k: usize = 0;
    while k < v.len()
        invariant
            k <= v@.len(),
            r@.len() == k,
            forall|j: int| 0 <= j < k ==> #[trigger] r@[j]@ == v@[j]@,
        decreases v@.len() - k,
    {
        let c = v[k].clone();
        assert(c@ =~= v@[k as int]@);
        r.push(c);
        k = k + 1;
    }
    assert(local_type_sets_view(r@) =~= local_type_sets_view(v@));
    r
}

impl LocalTypes {
    /// Adds type parameters with entries `es`, of definedness `d`, at new local types.
    fn push_param_entries(&mut self, es: &Vec<TypeParamEntry>, d: DefinedFlag)
        requires
            old(self).wf(),
            old(self)@.len() + es@.len() <= usize::MAX,
        ensures
            final(self).wf(),
            final(self)@ == (SLocalTypes {
                entries: old(self)@.entries + param_entries_at(
                    param_entries_view(es@),
                    d,
                    old(self)@.len() as int,
                ),
                roots: old(self)@.roots + indices_from(old(self)@.len() as int, es@.len()),
                eq_entries: old(self)@.eq_entries + Seq::new(es@.len(), |i: int| default_eq_entry()),
                eq_roots: old(self)@.eq_roots + indices_from(old(self)@.len() as int, es@.len()),
                ..old(self)@
            }),
    {
        let ghost s0 = self@;
        let ghost ev = param_entries_view(es@);
        let base = self.len();
        let mut i: usize = 0;
        while i < es.len()
            invariant
                self.wf(),
                ev == param_entries_view(es@),
                i <= es@.len(),
                base == s0.len(),
                base + es@.len() <= usize::MAX,
                self@ == (SLocalTypes {
                    entries: s0.entries + param_entries_at(ev.take(i as int), d, base as int),
                    roots: s0.roots + indices_from(base as int, i as nat),
                    eq_entries: s0.eq_entries + Seq::new(i as nat, |j: int| default_eq_entry()),
                    eq_roots: s0.eq_roots + indices_from(base as int, i as nat),
                    ..s0
                }),
            decreases es@.len() - i,
        {
            let e = es[i].duplicate();
            let ghost s1 = self@;
            self.push_entry(LocalTypeEntry::Param(d, UniqFlag::NonUniq, e, LocalType::new(base + i)));
            proof {
                assert(self@.entries =~= s0.entries + param_entries_at(ev.take(i + 1), d, base as int));
                assert(self@.roots =~= s0.roots + indices_from(base as int, (i + 1) as nat));
                assert(self@.eq_entries =~= s0.eq_entries + Seq::new(
                    (i + 1) as nat,
                    |j: int| default_eq_entry(),
                ));
                assert(self@.eq_roots =~= s0.eq_roots + indices_from(base as int, (i + 1) as nat));
            }
            i = i + 1;
        }
        assert(ev.take(es@.len() as int) =~= ev);
    }

    /// Sets the equations of the defined type.
    fn set_orig(&mut self, orig: Vec<Vec<LocalType>>)
        ensures
            final(self)@ == (SLocalTypes { orig: local_type_sets_view(orig@), ..old(self)@ }),
            final(self).wf() == old(self).wf(),
    {
        self.orig_eq_type_param_set = orig;
    }

    /// Puts a defined type at new local types: its type parameters as defined type parameters,
    /// then its type value, whose local type is returned. Its equations make the equation
    /// classes of the parameters and become the equations of the defined type.
    pub fn set_defined_type(&mut self, typ: &Type) -> (r: LocalType)
        requires
            old(self).wf(),
            old(self)@.len() + typ@.params.len() < usize::MAX,
            old(self)@.param_count + typ@.params.len() <= usize::MAX,
        ensures
            keeps_classes(old(self)@, final(self)@),
            final(self).wf(),
            r.idx == old(self)@.len() + typ@.params.len(),
            final(self)@.entries == (old(self)@.entries + param_entries_at(
                typ@.params,
                DefinedFlag::Defined,
                old(self)@.len() as int,
            )).push(SEntry::Type(typ@.type_value)),
            final(self)@.roots == old(self)@.roots + indices_from(
                old(self)@.len() as int,
                typ@.params.len() + 1,
            ),
            final(self)@.orig == typ@.eqs,
            final(self)@.param_count == old(self)@.param_count + typ@.params.len(),
            eq_classes_put(old(self)@, final(self)@, typ@.eqs, typ@.params.len() as int, true),
    {
        proof {
            self.lemma_wf();
        }
        let ghost s0 = self@;
        proof {
            self.lemma_wf();
        }
        let base = self.len();
        let n = typ.type_param_entries.len();
        self.push_param_entries(&typ.type_param_entries, DefinedFlag::Defined);
        let ghost s1 = self@;
        self.set_param_eqs(base, n, &typ.eq_type_param_set, true);
        let ghost s2 = self@;
        let r = self.push_entry(LocalTypeEntry::Type(typ.type_value.duplicate()));
        self.set_orig(duplicate_local_type_sets(&typ.eq_type_param_set));
        self.type_param_count = self.type_param_count + n;
        proof {
            assert(self@.roots =~= s0.roots + indices_from(base as int, (n + 1) as nat));
            assert forall|k: int| 0 <= k < base implies #[trigger] self@.eq_roots[k] == s0.eq_roots[k]
                && self@.eq_entries[k] == s0.eq_entries[k] by {
                assert(s2.eq_roots[k] == s1.eq_roots[k]);
            }
        }
        r
    }
}

/// The argument and result type values of a function type value.
pub open spec fn fun_type_values(tv: STypeValue) -> Option<Seq<STypeValue>> {
    match tv {
        STypeValue::Type(_, STypeValueName::Fun, args) => Some(args),
        _ => None,
    }
}

impl LocalTypes {
    /// Puts a defined function type at new local types: its type parameters as defined type
    /// parameters (as `set_defined_type` does), then each of its argument and result type values;
    /// returns their local types. `None`, and nothing changes, when the type is no function type.
    pub fn set_defined_fun_types(&mut self, typ: &Type) -> (r: Option<Vec<LocalType>>)
        requires
            old(self).wf(),
            fun_type_values(typ@.type_value) matches Some(args) ==> old(self)@.len()
                + typ@.params.len() + args.len() <= usize::MAX,
            old(self)@.param_count + typ@.params.len() <= usize::MAX,
        ensures
            keeps_classes(old(self)@, final(self)@),
            final(self).wf(),
            fun_type_values(typ@.type_value) is None ==> r is None && final(self)@ == old(self)@,
            fun_type_values(typ@.type_value) matches Some(args) ==> {
                let base = old(self)@.len() as int;
                let n = typ@.params.len();
                &&& r matches Some(lts) && lts@ == Seq::new(
                    args.len(),
                    |i: int| LocalType { idx: (base + n + i) as usize },
                )
                &&& final(self)@.entries == old(self)@.entries + param_entries_at(
                    typ@.params,
                    DefinedFlag::Defined,
                    base,
                ) + args.map_values(|t: STypeValue| SEntry::Type(t))
                &&& final(self)@.roots == old(self)@.roots + indices_from(base, n + args.len())
                &&& final(self)@.orig == typ@.eqs
                &&& final(self)@.param_count == old(self)@.param_count + n
                &&& eq_classes_put(old(self)@, final(self)@, typ@.eqs, n as int, true)
            },
    {
        proof {
            self.lemma_wf();
        }
        let args = match &typ.type_value {
            TypeValue::Type(_, TypeValueName::Fun, args) => args,
            _ => {
                return None;
            },
        };
        let ghost s0 = self@;
        proof {
            self.lemma_wf();
            lemma_type_values_view(args@);
        }
        let ghost av = type_values_view(args@);
        let base = self.len();
        let n = typ.type_param_entries.len();
        self.push_param_entries(&typ.type_param_entries, DefinedFlag::Defined);
        let ghost s1 = self@;
        self.set_param_eqs(base, n, &typ.eq_type_param_set, true);
        let ghost s2 = self@;
        let mut lts: Vec<LocalType> = Vec::new();
        let mut i: usize = 0;
        while i < args.len()
            invariant
                self.wf(),
                av == type_values_view(args@),
                av.len() == args@.len(),
                forall|j: int| 0 <= j < args@.len() ==> #[trigger] av[j] == args@[j]@,
                i <= args@.len(),
                base == s0.len(),
                base + n + args@.len() <= usize::MAX,
                s2.len() == base + n,
                lts@ == Seq::new(i as nat, |j: int| LocalType { idx: (base + n + j) as usize }),
                self@ == (SLocalTypes {
                    entries: s2.entries + av.take(i as int).map_values(|t: STypeValue| SEntry::Type(t)),
                    roots: s2.roots + indices_from((base + n) as int, i as nat),
                    eq_entries: s2.eq_entries + Seq::new(i as nat, |j: int| default_eq_entry()),
                    eq_roots: s2.eq_roots + indices_from((base + n) as int, i as nat),
                    ..s2
                }),
            decreases args@.len() - i,
        {
            let l = self.push_entry(LocalTypeEntry::Type(args[i].duplicate()));
            lts.push(l);
            proof {
                assert(lts@ =~= Seq::new((i + 1) as nat, |j: int| LocalType { idx: (base + n + j) as usize }));
                assert(self@.entries =~= s2.entries + av.take(i + 1).map_values(
                    |t: STypeValue| SEntry::Type(t),
                ));
                assert(self@.roots =~= s2.roots + indices_from((base + n) as int, (i + 1) as nat));
                assert(self@.eq_entries =~= s2.eq_entries + Seq::new(
                    (i + 1) as nat,
                    |j: int| default_eq_entry(),
                ));
                assert(self@.eq_roots =~= s2.eq_roots + indices_from((base + n) as int, (i + 1) as nat));
            }
            i = i + 1;
        }
        self.set_orig(duplicate_local_type_sets(&typ.eq_type_param_set));
        self.type_param_count = self.type_param_count + n;
        proof {
            assert(av.take(args@.len() as int) =~= av);
            assert(self@.roots =~= s0.roots + indices_from(base as int, (n + args@.len()) as nat));
            assert forall|k: int| 0 <= k < base implies #[trigger] self@.eq_roots[k] == s0.eq_roots[k]
                && self@.eq_entries[k] == s0.eq_entries[k] by {
                assert(s2.eq_roots[k] == s1.eq_roots[k]);
            }
            assert(self@.entries =~= s0.entries + param_entries_at(
                typ@.params,
                DefinedFlag::Defined,
                base as int,
            ) + av.map_values(|t: STypeValue| SEntry::Type(t)));
            assert forall|k: int| base + n <= k < self@.len() implies #[trigger] self@.eq_roots[k] == k
                && self@.eq_entries[k] == default_eq_entry() by {
                assert(indices_from((base + n) as int, args@.len())[k - base - n] == k);
            }
            assert forall|k: int| 0 <= k < base + n implies #[trigger] self@.eq_roots[k]
                == s2.eq_roots[k] && self@.eq_entries[k] == s2.eq_entries[k] by {
            }
            assert(eq_classes_put(s0, self@, typ@.eqs, n as int, true));
        }
        Some(lts)
    }
}

/// The type values that stand for `n` type parameters put at local types from `base` on.
pub open spec fn params_from(base: int, n: nat) -> Seq<STypeValue> {
    Seq::new(n, |i: int| STypeValue::Param(UniqFlag::NonUniq, LocalType { idx: (base + i) as usize }))
}

/// Whether each type parameter that a type names, in its type value or in the type values of
/// its parameters' traits, is one of its parameters.
pub open spec fn type_params_below(t: SType) -> bool {
    &&& stv_params_below(t.type_value, t.params.len())
    &&& forall|i: int, j: int|
        0 <= i < t.params.len() && 0 <= j < t.params[i].type_values.len() ==> stv_params_below(
            #[trigger] t.params[i].type_values[j],
            t.params.len(),
        )
}

/// The entries of the type parameters `es` of a type put at local types from `base` on, as
/// undefined type parameters numbered from `count + 1` on, with the parameters in their type
/// values put there too.
pub open spec fn new_params_at(es: Seq<SParamEntry>, base: int, count: int) -> Seq<SEntry> {
    Seq::new(
        es.len(),
        |i: int|
            SEntry::Param(
                DefinedFlag::Undefined,
                UniqFlag::NonUniq,
                SParamEntry {
                    type_values: stv_list_subst(es[i].type_values, params_from(base, es.len())),
                    number: Some((count + 1 + i) as usize),
                    ident: None,
                    ..es[i]
                },
                LocalType { idx: (base + i) as usize },
            ),
    )
}

impl LocalTypes {
    /// Binds a local type to a type: the type's parameters become new undefined type parameters,
    /// numbered after those made so far and without names, at new local types, put into the equation classes that the type's equations name, and the
    /// local type is bound to the type value with them. `Ok(false)`, and nothing changes, when
    /// there is no such local type; an error, and nothing changes, when the type names a type
    /// parameter that it does not have.
    pub fn set_type(&mut self, local_type: LocalType, typ: &Type) -> (r: FrontendInternalResult<
        bool,
    >)
        requires
            old(self).wf(),
            old(self)@.len() + typ@.params.len() <= usize::MAX,
            old(self)@.param_count + typ@.params.len() <= usize::MAX,
        ensures
            keeps_classes(old(self)@, final(self)@),
            final(self).wf(),
            local_type.idx >= old(self)@.len() ==> (r matches Ok(false)) && final(self)@ == old(self)@,
            local_type.idx < old(self)@.len() && !type_params_below(typ@) ==> r is Err
                && final(self)@ == old(self)@,
            local_type.idx < old(self)@.len() && type_params_below(typ@) ==> {
                let s = old(self)@;
                let base = s.len() as int;
                let n = typ@.params.len();
                &&& r matches Ok(true)
                &&& final(self)@.entries == (s.entries + new_params_at(
                    typ@.params,
                    base,
                    s.param_count as int,
                )).update(
                    s.roots[local_type.idx as int],
                    SEntry::Type(stv_subst(typ@.type_value, params_from(base, n))),
                )
                &&& final(self)@.roots == s.roots + indices_from(base, n)
                &&& final(self)@.orig == s.orig
                &&& final(self)@.param_count == s.param_count + n
                &&& eq_classes_put(s, final(self)@, typ@.eqs, n as int, false)
            },
    {
        proof {
            self.lemma_wf();
        }
        proof {
            self.lemma_wf();
        }
        let base = self.len();
        if local_type.idx >= base {
            return Ok(false);
        }
        let ghost s0 = self@;
        let ghost pv = typ@.params;
        let n = typ.type_param_entries.len();
        let ghost vv = params_from(base as int, n as nat);
        let mut vals: Vec<TypeValue> = Vec::new();
        let mut k: usize = 0;
        while k < n
            invariant
                k <= n,
                base + n <= usize::MAX,
                vals@.len() == k,
                forall|j: int| 0 <= j < k ==> #[trigger] vals@[j]@ == vv[j],
                vv == params_from(base as int, n as nat),
            decreases n - k,
        {
            vals.push(TypeValue::Param(UniqFlag::NonUniq, LocalType::new(base + k)));
            k = k + 1;
        }
        proof {
            lemma_type_values_view(vals@);
            assert(type_values_view(vals@) =~= vv);
        }
        let tv = match subst_values(&typ.type_value, vals.as_slice()) {
            Some(t) => t,
            None => {
                return Err(internal_error("set_type: no local type for type parameter"));
            },
        };
        let mut es: Vec<TypeParamEntry> = Vec::new();
        let mut i: usize = 0;
        while i < n
            invariant
                self.wf(),
                local_type.idx < base,
                base == s0.len(),
                i <= n,
                n == typ.type_param_entries@.len(),
                pv == typ@.params,
                pv.len() == n,
                base + n <= usize::MAX,
                s0.param_count + n <= usize::MAX,
                s0 == old(self)@,
                self@ == s0,
                type_values_view(vals@) == vv,
                vals@.len() == n,
                vv == params_from(base as int, n as nat),
                es@.len() == i,
                forall|a: int, b: int|
                    0 <= a < i && 0 <= b < pv[a].type_values.len() ==> stv_params_below(
                        #[trigger] pv[a].type_values[b],
                        n as nat,
                    ),
                forall|a: int|
                    0 <= a < i ==> #[trigger] es@[a]@ == (SParamEntry {
                        type_values: stv_list_subst(pv[a].type_values, vv),
                        number: Some((s0.param_count + 1 + a) as usize),
                        ident: None,
                        ..pv[a]
                    }),
            decreases n - i,
        {
            let e = &typ.type_param_entries[i];
            assert(e@ == pv[i as int]);
            proof {
                lemma_type_values_view(e.type_values@);
            }
            let mut tvs: Vec<TypeValue> = Vec::new();
            let mut j: usize = 0;
            while j < e.type_values.len()
                invariant
                    self.wf(),
                    self@ == s0,
                    s0 == old(self)@,
                    local_type.idx < base,
                    base == s0.len(),
                    i < n,
                    pv == typ@.params,
                    pv.len() == n,
                    j <= e.type_values@.len(),
                    e@ == pv[i as int],
                    type_values_view(vals@) == vv,
                    vals@.len() == n,
                    tvs@.len() == j,
                    forall|b: int| 0 <= b < j ==> stv_params_below(#[trigger] e@.type_values[b], n as nat),
                    forall|b: int|
                        0 <= b < j ==> #[trigger] tvs@[b]@ == stv_subst(e@.type_values[b], vv),
                    e@.type_values == type_values_view(e.type_values@),
                    e@.type_values.len() == e.type_values@.len(),
                    forall|b: int|
                        0 <= b < e.type_values@.len() ==> #[trigger] e@.type_values[b]
                            == e.type_values@[b]@,
                decreases e.type_values@.len() - j,
            {
                match subst_values(&e.type_values[j], vals.as_slice()) {
                    Some(t) => {
                        tvs.push(t);
                    },
                    None => {
                        proof {
                            assert(!stv_params_below(pv[i as int].type_values[j as int], n as nat));
                            assert(!type_params_below(typ@));
                            self.lemma_wf();
                        }
                        return Err(internal_error("set_type: no local type for type parameter"));
                    },
                }
                j = j + 1;
            }
            let mut e2 = e.duplicate();
            proof {
                lemma_type_values_view(tvs@);
                lemma_list_subst(e@.type_values, vv);
                assert(type_values_view(tvs@) =~= stv_list_subst(e@.type_values, vv));
            }
            e2.type_values = tvs;
            e2.number = Some(self.type_param_count + 1 + i);
            e2.ident = None;
            es.push(e2);
            i = i + 1;
        }
        proof {
            assert(type_params_below(typ@));
        }
        let root = self.root_of(local_type.idx);
        self.push_param_entries(&es, DefinedFlag::Undefined);
        let ghost s1 = self@;
        proof {
            assert(param_entries_at(param_entries_view(es@), DefinedFlag::Undefined, base as int)
                =~= new_params_at(pv, base as int, s0.param_count as int));
        }
        self.set_param_eqs(base, n, &typ.eq_type_param_set, false);
        let ghost s2 = self@;
        proof {
            self.lemma_wf();
        }
        self.set_entry_at(root, LocalTypeEntry::Type(tv));
        self.type_param_count = self.type_param_count + n;
        proof {
            assert forall|k: int| 0 <= k < base implies #[trigger] self@.eq_roots[k] == s0.eq_roots[k]
                && self@.eq_entries[k] == s0.eq_entries[k] by {
                assert(s2.eq_roots[k] == s1.eq_roots[k]);
            }
            assert(self@.entries == (s0.entries + new_params_at(pv, base as int, s0.param_count as int)).update(
                s0.roots[local_type.idx as int],
                SEntry::Type(stv_subst(typ@.type_value, params_from(base as int, n as nat)))));
            assert(self@.roots == s0.roots + indices_from(base as int, n as nat));
            assert(self@.eq_roots == s2.eq_roots && self@.eq_entries == s2.eq_entries);
            assert(self@.len() == base + n);
            assert(self@.eq_entries.len() == self@.len() && self@.eq_roots.len() == self@.len());
            assert forall|i: int| 0 <= i < n implies {
                &&& #[trigger] self@.eq_roots[base + i] == base + eq_class_root(typ@.eqs, i, n as int)
                &&& eq_root_param(typ@.eqs, i, n as int) == i ==> self@.eq_entries[base + i]
                    == eqs_class_entry(
                    eq_members(eq_set_at(typ@.eqs, i), i, n as int, base as int),
                    false,
                )
            } by {
                assert(s2.eq_roots[base + i] == base + eq_class_root(typ@.eqs, i, n as int));
            }
            assert(eq_classes_put(s0, self@, typ@.eqs, n as int, false));
        }
        Ok(true)
    }
}

} // verus!
