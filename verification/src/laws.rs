use vstd::prelude::*;
use crate::entries::{SEntry, SParamEntry, has_trait, local_types_union, trait_names_union, lemma_trait_insert_contains, lemma_local_insert_contains};
use crate::env::{BuiltinTypeVar, STree, TypeVarKind, find_primitive, find_type_var};
use crate::display::{display_list, display_tv, lts_text};
use crate::local_types::{SLocalTypes, after_set_uniq, entry_uniq, lemma_resolve_uniq};
use crate::subst::{stv_has_param, stv_list_has_param};
use crate::text::stv_text;
use crate::type_matcher::{
    after_set_shared, heads_can_match, heads_mismatch, joined_by_match, matched_shape, spec_cast, spec_cast_args,
    spec_cast_heads, spec_flags, spec_real_uniq, spec_set_shared, traits_hold, merged_param_entry, match_owed,
    owed_outcome, reasons_reported, MismatchedTypeInfo,
    with_shared, ground_args_outcome, ground_entries_in, ground_match_outcome, ground_outcome_in,
    ground_types_outcome, match_owed_ground, ground_owed_outcome, spec_cast_entries, spec_args_flag,
    pattern_table,
};
use crate::match_spec::{spec_match_entries, spec_match_tvs};
use crate::types::{DefinedFlag, LocalType, STraitName, STypeValue, STypeValueName, SharedFlag, UniqFlag, uniq_or};

verus! {

/// A unique type is never shared: whenever the uniqueness and sharing of a type come out, a
/// unique one is not shared.
pub proof fn law_unique_is_not_shared(
    tree: STree,
    lts: SLocalTypes,
    tv: STypeValue,
    arg_flag: Option<SharedFlag>,
    fuel: nat,
)
    ensures
        spec_flags(tree, lts, tv, arg_flag, fuel) matches Some((u, f)) ==> (u == UniqFlag::Uniq
            ==> f == SharedFlag::NonShared),
{
}

/// Making a type parameter unique makes it unique by itself: afterwards its real uniqueness is
/// unique.
pub proof fn law_set_uniq_makes_real_uniq(s: SLocalTypes, l: LocalType)
    requires
        s.well_formed(),
        l.idx < s.len(),
        s.len() < usize::MAX,
        s.entry_of(l.idx as int) is Param,
    ensures
        spec_real_uniq(after_set_uniq(s, l.idx as int), STypeValue::Param(UniqFlag::NonUniq, l))
            == Some(UniqFlag::Uniq),
{
    let f = after_set_uniq(s, l.idx as int);
    let n = s.len() as int;
    let root = s.roots[l.idx as int];
    assert(f.roots[l.idx as int] == root);
    assert(f.entries[root] == SEntry::Type(
        STypeValue::Param(UniqFlag::Uniq, LocalType { idx: n as usize }),
    ));
    assert(f.roots[n] == n);
    assert(uniq_or(UniqFlag::NonUniq, UniqFlag::Uniq) == UniqFlag::Uniq);
    assert(f.len() == n + 1);
    assert(f.resolve(STypeValue::Param(UniqFlag::Uniq, LocalType { idx: n as usize }), n as nat)
        is Some);
    lemma_resolve_uniq(f, STypeValue::Param(UniqFlag::Uniq, LocalType { idx: n as usize }), n as nat);
}

/// What a type value resolves to is kept when the entry of the type parameter that it resolves
/// to is replaced by one that differs in its parameter entry and uniqueness alone.
pub proof fn lemma_resolve_param_update(
    s: SLocalTypes,
    t: SLocalTypes,
    tv: STypeValue,
    fuel: nat,
    l: int,
    e: SEntry,
)
    requires
        s.well_formed(),
        0 <= l < s.len(),
        s.entries[l] is Param,
        s.roots[l] == l,
        e is Param,
        e->Param_0 == s.entries[l]->Param_0,
        e->Param_1 == s.entries[l]->Param_1,
        e->Param_3 == s.entries[l]->Param_3,
        t == (SLocalTypes { entries: s.entries.update(l, e), ..s }),
        s.resolve(tv, fuel) matches Some(SEntry::Param(_, _, _, l2)) && l2.idx == l,
    ensures
        s.resolve(tv, fuel) matches Some(SEntry::Param(d, u, _, l2)) && t.resolve(tv, fuel) == Some(
            SEntry::Param(d, u, e->Param_2, l2),
        ),
    decreases fuel,
{
    match tv {
        STypeValue::Type(_, _, _) => {},
        STypeValue::Param(u, x) => {
            let r = s.roots[x.idx as int];
            if r == l {
                assert(t.entry_of(x.idx as int) == e);
            } else {
                assert(s.entries[r] is Type) by {
                    if s.entries[r] is Param {
                        assert(s.roots[r] == r);
                    }
                }
                assert(t.entry_of(x.idx as int) == s.entry_of(x.idx as int));
                match s.entry_of(x.idx as int) {
                    SEntry::Type(STypeValue::Param(u3, l3)) => {
                        lemma_resolve_param_update(
                            s,
                            t,
                            STypeValue::Param(uniq_or(u, u3), l3),
                            (fuel - 1) as nat,
                            l,
                            e,
                        );
                    },
                    _ => {},
                }
            }
        },
    }
}

/// Making a type shared is idempotent: when it succeeded once, doing it again succeeds and
/// changes nothing more.
pub proof fn law_set_shared_idempotent(tree: STree, s: SLocalTypes, tv: STypeValue, fuel: nat)
    requires
        s.well_formed(),
        spec_set_shared(tree, s, tv, fuel) matches Some((true, _)),
    ensures
        spec_set_shared(tree, after_set_shared(s, spec_set_shared(tree, s, tv, fuel)), tv, fuel)
            == Some((true, None::<LocalType>)),
{
    let o = spec_set_shared(tree, s, tv, fuel);
    match o {
        Some((_, Some(l))) => {
            s.lemma_resolve_param(tv, s.len());
            let t = after_set_shared(s, o);
            let e = with_shared(s.entries[l.idx as int]);
            lemma_resolve_param_update(s, t, tv, s.len(), l.idx as int, e);
            let names = s.entries[l.idx as int]->Param_2.trait_names;
            lemma_trait_insert_contains(names, STraitName::Shared, STraitName::Shared);
            assert(has_trait(e->Param_2, STraitName::Shared));
        },
        _ => {},
    }
}

/// Casting is symmetric: where casting one type to another and back raise no internal error,
/// both give the same answer.
pub proof fn law_cast_symmetric(
    tree: STree,
    builtins: Seq<BuiltinTypeVar>,
    lts: SLocalTypes,
    tv1: STypeValue,
    tv2: STypeValue,
    fuel: nat,
)
    ensures
        spec_cast(tree, builtins, lts, tv1, tv2, fuel) is Some && spec_cast(
            tree,
            builtins,
            lts,
            tv2,
            tv1,
            fuel,
        ) is Some ==> spec_cast(tree, builtins, lts, tv1, tv2, fuel) == spec_cast(
            tree,
            builtins,
            lts,
            tv2,
            tv1,
            fuel,
        ),
    decreases fuel, 0nat,
{
    if fuel > 0 {
        match (lts.entry_for(tv1), lts.entry_for(tv2)) {
            (Some(SEntry::Type(STypeValue::Type(_, n1, a1))), Some(SEntry::Type(STypeValue::Type(_, n2, a2)))) => {
                let h1 = spec_cast_heads(tree, builtins, n1, n2);
                let h2 = spec_cast_heads(tree, builtins, n2, n1);
                if h1 is Some && h2 is Some {
                    assert(h1 == h2);
                }
                law_cast_args_symmetric(tree, builtins, lts, a1, a2, (fuel - 1) as nat);
            },
            _ => {},
        }
    }
}

/// Casting arguments pairwise is symmetric where neither direction raises an internal error.
pub proof fn law_cast_args_symmetric(
    tree: STree,
    builtins: Seq<BuiltinTypeVar>,
    lts: SLocalTypes,
    a1: Seq<STypeValue>,
    a2: Seq<STypeValue>,
    fuel: nat,
)
    ensures
        spec_cast_args(tree, builtins, lts, a1, a2, fuel) is Some && spec_cast_args(
            tree,
            builtins,
            lts,
            a2,
            a1,
            fuel,
        ) is Some ==> spec_cast_args(tree, builtins, lts, a1, a2, fuel) == spec_cast_args(
            tree,
            builtins,
            lts,
            a2,
            a1,
            fuel,
        ),
    decreases fuel, a1.len() + 1,
{
    if a1.len() > 0 && a2.len() > 0 {
        let k = if a1.len() < a2.len() {
            a1.len()
        } else {
            a2.len()
        };
        law_cast_args_symmetric(tree, builtins, lts, a1.take(k - 1), a2.take(k - 1), fuel);
        law_cast_symmetric(tree, builtins, lts, a1[k - 1], a2[k - 1], fuel);
    }
}

/// What matching can decide by the heads of two entries, and what a successful match shows of
/// traits and classes, do not depend on the order of the two: a mismatch of heads in one order
/// is one in the other, and a successful match in either order establishes the same classes.
pub proof fn law_match_facts_symmetric(
    tree: STree,
    s0: SLocalTypes,
    s1: SLocalTypes,
    e1: SEntry,
    e2: SEntry,
    tv1: STypeValue,
    tv2: STypeValue,
)
    ensures
        heads_can_match(e1, e2) == heads_can_match(e2, e1),
        heads_mismatch(e1, e2) == heads_mismatch(e2, e1),
        traits_hold(tree, e1, e2) == traits_hold(tree, e2, e1),
        joined_by_match(s1, e1, e2) == joined_by_match(s1, e2, e1),
        matched_shape(tree, s0, s1, tv1, tv2) == matched_shape(tree, s0, s1, tv2, tv1),
{
    match (s0.entry_for(tv1), s0.entry_for(tv2)) {
        (Some(a), Some(b)) => {
            assert(heads_can_match(a, b) == heads_can_match(b, a));
            assert(traits_hold(tree, a, b) == traits_hold(tree, b, a));
            assert(joined_by_match(s1, a, b) == joined_by_match(s1, b, a));
        },
        _ => {},
    }
}

/// Whether matching two entries owes a success does not depend on their order; where at most
/// one of them is an undefined type parameter, an owed success has the same outcome in either
/// order, and the reasons given where they do not match are the same.
pub proof fn law_match_outcome_symmetric(
    tree: STree,
    s: SLocalTypes,
    e1: SEntry,
    e2: SEntry,
    infos: Seq<MismatchedTypeInfo>,
)
    ensures
        match_owed(tree, s, e1, e2) == match_owed(tree, s, e2, e1),
        !(e1 matches SEntry::Param(DefinedFlag::Undefined, _, _, _) && e2 matches SEntry::Param(
            DefinedFlag::Undefined,
            _,
            _,
            _,
        )) ==> reasons_reported(tree, s, e1, e2, infos) == reasons_reported(tree, s, e2, e1, infos),
        match_owed(tree, s, e1, e2) && !(e1 matches SEntry::Param(DefinedFlag::Undefined, _, _, _)
            && e2 matches SEntry::Param(DefinedFlag::Undefined, _, _, _)) ==> owed_outcome(tree, s, e1, e2)
            == owed_outcome(tree, s, e2, e1),
{
}

/// A type value without type parameters is written the same with the meaning that a table
/// gives it as by itself.
pub proof fn law_text_without_params(s: SLocalTypes, tv: STypeValue)
    requires
        !stv_has_param(tv),
    ensures
        lts_text(s, tv) == stv_text(tv),
{
    lemma_display_without_params(s, tv, crate::type_matcher::TYPE_DEPTH_LIMIT as nat);
}

/// Writing leaves a type value without type parameters as it is.
pub proof fn lemma_display_without_params(s: SLocalTypes, tv: STypeValue, fuel: nat)
    requires
        !stv_has_param(tv),
    ensures
        display_tv(s, tv, fuel) == tv,
    decreases fuel, 0nat, 0nat,
{
    if fuel > 0 {
        match tv {
            STypeValue::Type(u, n, args) => {
                lemma_display_list_without_params(s, args, (fuel - 1) as nat);
            },
            _ => {},
        }
    }
}

/// Writing leaves type values without type parameters as they are.
pub proof fn lemma_display_list_without_params(s: SLocalTypes, args: Seq<STypeValue>, fuel: nat)
    requires
        !stv_list_has_param(args),
    ensures
        display_list(s, args, fuel) == args,
    decreases fuel, 1nat, args.len(),
{
    if args.len() > 0 {
        lemma_display_list_without_params(s, args.drop_last(), fuel);
        lemma_display_without_params(s, args.last(), fuel);
        assert(args.drop_last().push(args.last()) =~= args);
    }
}

/// A trait name is in the union of two sequences of trait names exactly when it is in one of
/// them.
pub proof fn lemma_trait_names_union_contains(a: Seq<STraitName>, b: Seq<STraitName>, t: STraitName)
    ensures
        trait_names_union(a, b).contains(t) <==> (a.contains(t) || b.contains(t)),
    decreases b.len(),
{
    if b.len() > 0 {
        lemma_trait_names_union_contains(a, b.drop_last(), t);
        lemma_trait_insert_contains(trait_names_union(a, b.drop_last()), b.last(), t);
        if b.drop_last().contains(t) {
            let k = choose|k: int| 0 <= k < b.drop_last().len() && b.drop_last()[k] == t;
            assert(b[k] == t);
        }
        if b.contains(t) && t != b.last() {
            let k = choose|k: int| 0 <= k < b.len() && b[k] == t;
            assert(b.drop_last()[k] == t);
        }
        assert(b.contains(b.last())) by {
            assert(b[b.len() - 1] == b.last());
        }
    }
}

/// A local type is in the union of two sequences of local types exactly when it is in one of
/// them.
pub proof fn lemma_local_types_union_contains(a: Seq<LocalType>, b: Seq<LocalType>, l: LocalType)
    ensures
        local_types_union(a, b).contains(l) <==> (a.contains(l) || b.contains(l)),
    decreases b.len(),
{
    if b.len() > 0 {
        lemma_local_types_union_contains(a, b.drop_last(), l);
        lemma_local_insert_contains(local_types_union(a, b.drop_last()), b.last(), l);
        if b.drop_last().contains(l) {
            let k = choose|k: int| 0 <= k < b.drop_last().len() && b.drop_last()[k] == l;
            assert(b[k] == l);
        }
        if b.contains(l) && l != b.last() {
            let k = choose|k: int| 0 <= k < b.len() && b[k] == l;
            assert(b.drop_last()[k] == l);
        }
        assert(b.contains(b.last())) by {
            assert(b[b.len() - 1] == b.last());
        }
    }
}

/// The entry that joining two undefined type parameters gives their class requires exactly the
/// traits of both, is captured by exactly the closures of both, and has the smaller number,
/// whichever of the two comes first.
pub proof fn law_merged_entry_holds_both(p1: SParamEntry, p2: SParamEntry, t: STraitName, l: LocalType)
    ensures
        merged_param_entry(p1, p2).trait_names.contains(t) <==> (p1.trait_names.contains(t)
            || p2.trait_names.contains(t)),
        merged_param_entry(p1, p2).trait_names.contains(t) == merged_param_entry(p2, p1).trait_names.contains(t),
        merged_param_entry(p1, p2).closure_local_types.contains(l) <==> (p1.closure_local_types.contains(l)
            || p2.closure_local_types.contains(l)),
        merged_param_entry(p1, p2).closure_local_types.contains(l) == merged_param_entry(
            p2,
            p1,
        ).closure_local_types.contains(l),
        merged_param_entry(p1, p2).number == merged_param_entry(p2, p1).number,
{
    lemma_trait_names_union_contains(p1.trait_names, p2.trait_names, t);
    lemma_trait_names_union_contains(p2.trait_names, p1.trait_names, t);
    lemma_local_types_union_contains(p1.closure_local_types, p2.closure_local_types, l);
    lemma_local_types_union_contains(p2.closure_local_types, p1.closure_local_types, l);
}


/// Matching two type values that stand for types all the way down (types, or local types bound
/// to such types) has the same outcome in either order: the same sharing flag, no match, or an
/// internal error.
pub proof fn law_ground_match_symmetric(tree: STree, s: SLocalTypes, tv1: STypeValue, tv2: STypeValue, fuel: nat)
    ensures
        ground_entries_in(s, tv1, tv2) == ground_entries_in(s, tv2, tv1),
        ground_outcome_in(tree, s, tv1, tv2, fuel) == ground_outcome_in(tree, s, tv2, tv1, fuel),
{
    if fuel > 0 {
        match (s.entry_for(tv1), s.entry_for(tv2)) {
            (Some(SEntry::Type(t1)), Some(SEntry::Type(t2))) => {
                lemma_ground_types_symmetric(tree, s, t1, t2, (fuel - 1) as nat);
            },
            _ => {},
        }
    }
}

/// `ground_match_outcome` does not depend on the order of the two type values.
proof fn lemma_ground_match_symmetric(tree: STree, s: SLocalTypes, tv1: STypeValue, tv2: STypeValue, fuel: nat)
    ensures
        ground_match_outcome(tree, s, tv1, tv2, fuel) == ground_match_outcome(tree, s, tv2, tv1, fuel),
    decreases fuel, 0nat, 0nat,
{
    if fuel > 0 {
        lemma_ground_types_symmetric(tree, s, tv1, tv2, (fuel - 1) as nat);
    }
}

/// `ground_args_outcome` does not depend on the order of the two lists.
proof fn lemma_ground_args_symmetric(
    tree: STree,
    s: SLocalTypes,
    a1: Seq<STypeValue>,
    a2: Seq<STypeValue>,
    fuel: nat,
    n: nat,
)
    ensures
        ground_args_outcome(tree, s, a1, a2, fuel, n) == ground_args_outcome(tree, s, a2, a1, fuel, n),
    decreases fuel, 1nat, n,
{
    if n > 0 {
        lemma_ground_args_symmetric(tree, s, a1, a2, fuel, (n - 1) as nat);
        lemma_ground_match_symmetric(tree, s, a1[n - 1], a2[n - 1], fuel);
    }
}

/// `ground_types_outcome` does not depend on the order of the two types.
proof fn lemma_ground_types_symmetric(tree: STree, s: SLocalTypes, tv1: STypeValue, tv2: STypeValue, fuel: nat)
    ensures
        ground_types_outcome(tree, s, tv1, tv2, fuel) == ground_types_outcome(tree, s, tv2, tv1, fuel),
    decreases fuel, 2nat, 0nat,
{
    match (tv1, tv2) {
        (STypeValue::Type(_, n1, a1), STypeValue::Type(_, n2, a2)) => {
            if a1.len() == a2.len() && n1 == n2 {
                lemma_ground_args_symmetric(tree, s, a1, a2, fuel, a1.len());
            }
        },
        _ => {},
    }
}

/// Whether a match of two entries whose type values are types all the way down can only
/// succeed does not depend on their order; neither does its outcome, but where two undefined
/// type parameters are joined (the entry of the class merges them in order).
pub proof fn law_ground_owed_symmetric(tree: STree, s: SLocalTypes, e1: SEntry, e2: SEntry, fuel: nat)
    ensures
        match_owed_ground(tree, s, e1, e2, fuel) == match_owed_ground(tree, s, e2, e1, fuel),
        match_owed_ground(tree, s, e1, e2, fuel) && !(e1 matches SEntry::Param(DefinedFlag::Undefined, _, _, _)
            && e2 matches SEntry::Param(DefinedFlag::Undefined, _, _, _)) ==> ground_owed_outcome(
            tree,
            s,
            e1,
            e2,
            fuel,
        ) == ground_owed_outcome(tree, s, e2, e1, fuel),
{
    match (e1, e2) {
        (
            SEntry::Param(DefinedFlag::Undefined, _, p1, _),
            SEntry::Param(DefinedFlag::Undefined, _, p2, _),
        ) => {
            lemma_ground_args_symmetric(tree, s, p1.type_values, p2.type_values, fuel, p1.type_values.len());
        },
        _ => {},
    }
}

/// Matching an undefined type parameter with a defined one or with a type gives the same
/// outcome (sharing flag, table and reasons) in either order.
pub proof fn law_match_swapped_entries(tree: STree, s: SLocalTypes, e1: SEntry, e2: SEntry, fuel: nat)
    requires
        e2 matches SEntry::Param(DefinedFlag::Undefined, _, _, _),
        e1 is Type || e1 matches SEntry::Param(DefinedFlag::Defined, _, _, _),
    ensures
        spec_match_entries(tree, s, e1, e2, fuel) == spec_match_entries(tree, s, e2, e1, fuel),
{
}

/// Matching two type values, one standing for an undefined type parameter and the other for a
/// defined one or a type, gives the same outcome in either order; so do `match_type_values` and
/// `matches`, whose results follow that outcome.
pub proof fn law_match_swapped(tree: STree, s: SLocalTypes, tv1: STypeValue, tv2: STypeValue, fuel: nat)
    requires
        s.entry_for(tv2) matches Some(SEntry::Param(DefinedFlag::Undefined, _, _, _)),
        s.entry_for(tv1) matches Some(e1) && (e1 is Type || e1 matches SEntry::Param(DefinedFlag::Defined, _, _, _)),
    ensures
        spec_match_tvs(tree, s, tv1, tv2, fuel) == spec_match_tvs(tree, s, tv2, tv1, fuel),
{
    if fuel > 0 {
        law_match_swapped_entries(tree, s, s.entry_for(tv1).unwrap(), s.entry_for(tv2).unwrap(), (fuel - 1) as nat);
    }
}

/// Two types whose numbers of type arguments differ (such as tuples of different lengths) can
/// never be cast one to the other: the cast is refused or stops at an internal error, never
/// allowed.
pub proof fn law_cast_needs_equal_arity(
    tree: STree,
    builtins: Seq<BuiltinTypeVar>,
    lts: SLocalTypes,
    tv1: STypeValue,
    tv2: STypeValue,
    fuel: nat,
)
    requires
        lts.entry_for(tv1) matches Some(SEntry::Type(STypeValue::Type(_, _, a1))) && lts.entry_for(tv2) matches Some(
            SEntry::Type(STypeValue::Type(_, _, a2)),
        ) && a1.len() != a2.len(),
    ensures
        !(spec_cast(tree, builtins, lts, tv1, tv2, fuel) matches Some(Some(_))),
        !(spec_cast_entries(tree, builtins, lts, lts.entry_for(tv1).unwrap(), lts.entry_for(tv2).unwrap(), fuel) matches Some(
            Some(_),
        )),
{
}

/// The uniqueness that a type value has by itself is the one its entry carries: that of the
/// type parameter it stands for, or that of the type it is bound to, so a local type bound to a
/// unique type is unique by itself.
pub proof fn law_real_uniq_is_entry_uniq(lts: SLocalTypes, tv: STypeValue)
    ensures
        lts.entry_for(tv) matches Some(SEntry::Type(STypeValue::Type(u, _, _))) ==> spec_real_uniq(lts, tv) == Some(u),
        lts.entry_for(tv) matches Some(SEntry::Param(_, u, _, _)) ==> spec_real_uniq(lts, tv) == Some(u),
        lts.entry_for(tv) is None ==> spec_real_uniq(lts, tv) is None,
{
}

/// A non-unique tuple or array type has no sharing of its own: it is shared, and not unique,
/// exactly when its type arguments are (or, where the caller gives their sharing, when that is
/// shared).
pub proof fn law_tuple_and_array_share_as_their_arguments(
    tree: STree,
    lts: SLocalTypes,
    tv: STypeValue,
    arg_flag: Option<SharedFlag>,
    fuel: nat,
)
    requires
        fuel > 0,
        lts.entry_for(tv) matches Some(SEntry::Type(STypeValue::Type(UniqFlag::NonUniq, n, _))) && (n
            is Tuple || n is Array),
    ensures
        ({
            let args = lts.entry_for(tv).unwrap()->Type_0->Type_2;
            let g = match arg_flag {
                Some(f) => Some(f),
                None => spec_args_flag(tree, lts, args, (fuel - 1) as nat),
            };
            &&& g == Some(SharedFlag::Shared) ==> spec_flags(tree, lts, tv, arg_flag, fuel) == Some(
                (UniqFlag::NonUniq, SharedFlag::Shared),
            )
            &&& g == Some(SharedFlag::NonShared) ==> spec_flags(tree, lts, tv, arg_flag, fuel) == Some(
                (UniqFlag::Uniq, SharedFlag::NonShared),
            )
            &&& g is None ==> spec_flags(tree, lts, tv, arg_flag, fuel) is None
        }),
{
}

/// Where the other side of a pattern is unique by itself, the side of the pattern (a type
/// parameter) is made unique before the two are matched; where it is not, nothing changes first.
pub proof fn law_pattern_side_made_unique(
    tree: STree,
    s: SLocalTypes,
    l: LocalType,
    is_var: bool,
    other: LocalType,
)
    requires
        s.well_formed(),
        l.idx < s.len(),
        s.len() < usize::MAX,
        s.entry_of(l.idx as int) is Param,
    ensures
        pattern_table(tree, s, l, is_var, other) is Some && spec_real_uniq(
            s,
            STypeValue::Param(UniqFlag::NonUniq, other),
        ) == Some(UniqFlag::Uniq) ==> spec_real_uniq(
            pattern_table(tree, s, l, is_var, other).unwrap(),
            STypeValue::Param(UniqFlag::NonUniq, l),
        ) == Some(UniqFlag::Uniq),
        spec_real_uniq(s, STypeValue::Param(UniqFlag::NonUniq, other)) == Some(UniqFlag::NonUniq) ==> pattern_table(
            tree,
            s,
            l,
            is_var,
            other,
        ) == Some(s),
{
    law_set_uniq_makes_real_uniq(s, l);
}

/// Whether `id` names a builtin type variable of the tree that the builtins mark primitive.
pub open spec fn primitive_builtin(tree: STree, builtins: Seq<BuiltinTypeVar>, id: Seq<char>) -> bool {
    find_type_var(tree.type_vars, id) matches Some(v) && v.kind == TypeVarKind::Builtin && find_primitive(builtins, id)
        == Some(true)
}

/// Whether two entries are types of a shape between which a cast may be allowed: equal numbers
/// of type arguments, and two primitive builtin types, two tuples, or two arrays of one known
/// length.
pub open spec fn cast_shape(tree: STree, builtins: Seq<BuiltinTypeVar>, e1: Option<SEntry>, e2: Option<SEntry>) -> bool {
    match (e1, e2) {
        (Some(SEntry::Type(STypeValue::Type(_, n1, a1))), Some(SEntry::Type(STypeValue::Type(_, n2, a2)))) => a1.len()
            == a2.len() && match (n1, n2) {
            (STypeValueName::Tuple, STypeValueName::Tuple) => true,
            (STypeValueName::Array(Some(k1)), STypeValueName::Array(Some(k2))) => k1 == k2,
            (STypeValueName::Name(i1), STypeValueName::Name(i2)) => primitive_builtin(tree, builtins, i1)
                && primitive_builtin(tree, builtins, i2),
            _ => false,
        },
        _ => false,
    }
}

/// A cast is allowed only between types of a shape that allows it (see `cast_shape`): never for a
/// type parameter, a function type, an array of unknown length, a non-primitive named type, two
/// different heads, or different numbers of type arguments.
pub proof fn law_cast_allowed_only_between_fitting_types(
    tree: STree,
    builtins: Seq<BuiltinTypeVar>,
    lts: SLocalTypes,
    tv1: STypeValue,
    tv2: STypeValue,
    fuel: nat,
)
    ensures
        spec_cast(tree, builtins, lts, tv1, tv2, fuel) matches Some(Some(_)) ==> cast_shape(
            tree,
            builtins,
            lts.entry_for(tv1),
            lts.entry_for(tv2),
        ),
{
}

/// The uniqueness and sharing of a type by its kind: a unique type is unique and not shared; a
/// non-unique function type is shared; a non-unique type parameter is shared exactly when it
/// requires `shared`, and a unique one is not; a non-unique named type whose type variable is
/// not shared is unique and not shared, whatever its type arguments.
pub proof fn law_flags_by_kind(tree: STree, lts: SLocalTypes, tv: STypeValue, arg_flag: Option<SharedFlag>, fuel: nat)
    requires
        fuel > 0,
    ensures
        lts.entry_for(tv) matches Some(SEntry::Type(STypeValue::Type(UniqFlag::Uniq, _, _))) ==> spec_flags(
            tree,
            lts,
            tv,
            arg_flag,
            fuel,
        ) == Some((UniqFlag::Uniq, SharedFlag::NonShared)),
        lts.entry_for(tv) matches Some(SEntry::Type(STypeValue::Type(UniqFlag::NonUniq, STypeValueName::Fun, _)))
            ==> spec_flags(tree, lts, tv, arg_flag, fuel) == Some((UniqFlag::NonUniq, SharedFlag::Shared)),
        lts.entry_for(tv) matches Some(SEntry::Param(_, UniqFlag::Uniq, _, _)) ==> spec_flags(
            tree,
            lts,
            tv,
            arg_flag,
            fuel,
        ) == Some((UniqFlag::Uniq, SharedFlag::NonShared)),
        lts.entry_for(tv) matches Some(SEntry::Param(_, UniqFlag::NonUniq, e, _)) ==> spec_flags(
            tree,
            lts,
            tv,
            arg_flag,
            fuel,
        ) == Some(
            (
                UniqFlag::NonUniq,
                if has_trait(e, STraitName::Shared) {
                    SharedFlag::Shared
                } else {
                    SharedFlag::NonShared
                },
            ),
        ),
        lts.entry_for(tv) matches Some(SEntry::Type(STypeValue::Type(UniqFlag::NonUniq, STypeValueName::Name(id), _)))
            ==> (find_type_var(tree.type_vars, id) matches Some(v) && (v.kind == TypeVarKind::Builtin || v.kind
            == TypeVarKind::Data) && v.shared_flag == Some(SharedFlag::NonShared) ==> spec_flags(
            tree,
            lts,
            tv,
            arg_flag,
            fuel,
        ) == Some((UniqFlag::Uniq, SharedFlag::NonShared))),
        lts.entry_for(tv) matches Some(SEntry::Type(STypeValue::Type(UniqFlag::NonUniq, STypeValueName::Name(id), args)))
            ==> (find_type_var(tree.type_vars, id) matches Some(v) && (v.kind == TypeVarKind::Builtin || v.kind
            == TypeVarKind::Data) && v.shared_flag == Some(SharedFlag::Shared) ==> spec_flags(
            tree,
            lts,
            tv,
            arg_flag,
            fuel,
        ) == match (match arg_flag {
            Some(f) => Some(f),
            None => spec_args_flag(tree, lts, args, (fuel - 1) as nat),
        }) {
            Some(SharedFlag::Shared) => Some((UniqFlag::NonUniq, SharedFlag::Shared)),
            Some(SharedFlag::NonShared) => Some((UniqFlag::Uniq, SharedFlag::NonShared)),
            None => None,
        }),
        lts.entry_for(tv) matches Some(SEntry::Type(STypeValue::Type(UniqFlag::NonUniq, STypeValueName::Name(id), _)))
            ==> (!(find_type_var(tree.type_vars, id) matches Some(v) && (v.kind == TypeVarKind::Builtin || v.kind
            == TypeVarKind::Data) && v.shared_flag is Some) ==> spec_flags(tree, lts, tv, arg_flag, fuel) is None),
{
}

/// Two primitive builtin types, or other types of a fitting shape without type arguments, can
/// be cast one to the other exactly when they share alike; the cast then gives that sharing.
pub proof fn law_cast_between_flat_types(
    tree: STree,
    builtins: Seq<BuiltinTypeVar>,
    lts: SLocalTypes,
    tv1: STypeValue,
    tv2: STypeValue,
    fuel: nat,
)
    requires
        fuel > 0,
        cast_shape(tree, builtins, lts.entry_for(tv1), lts.entry_for(tv2)),
        lts.entry_for(tv1).unwrap()->Type_0->Type_2.len() == 0,
    ensures
        ({
            let t1 = lts.entry_for(tv1).unwrap()->Type_0;
            let t2 = lts.entry_for(tv2).unwrap()->Type_0;
            match (
                spec_flags(tree, lts, t1, Some(SharedFlag::Shared), crate::type_matcher::TYPE_DEPTH_LIMIT as nat),
                spec_flags(tree, lts, t2, Some(SharedFlag::Shared), crate::type_matcher::TYPE_DEPTH_LIMIT as nat),
            ) {
                (Some((_, f1)), Some((_, f2))) => spec_cast(tree, builtins, lts, tv1, tv2, fuel) == if f1 == f2 {
                    Some(Some(f1))
                } else {
                    Some(None)
                },
                _ => spec_cast(tree, builtins, lts, tv1, tv2, fuel) is None,
            }
        }),
{
    let t1 = lts.entry_for(tv1).unwrap()->Type_0;
    let t2 = lts.entry_for(tv2).unwrap()->Type_0;
    let a1 = t1->Type_2;
    let a2 = t2->Type_2;
    assert(spec_cast_args(tree, builtins, lts, a1, a2, (fuel - 1) as nat) == Some((true, SharedFlag::Shared)));
}
} // verus!
