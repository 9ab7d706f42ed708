use vstd::prelude::*;
use crate::entries::{SEntry, SParamEntry, has_trait, is_bare};
use crate::env::{STree, STypeName, stv_type_name};
use crate::local_types::{SLocalTypes, with_type_value};
use crate::type_matcher::{
    MismatchedTypeInfo, TypeMatcher, TypeMatcherResult, after_set_shared, in_eq_class, join_outcome, merged_param_entry,
    spec_args_flag, spec_flags, spec_set_shared, trait_satisfied,
};
use crate::types::{DefinedFlag, FrontendInternalResult, LocalType, STraitName, STypeValue, SharedFlag, UniqFlag};

verus! {

/// A reason why two types do not match, by its meaning.
pub enum SInfo {
    Param(LocalType, STraitName, LocalType),
    Type(STypeName, STraitName, LocalType),
    Eq(LocalType, LocalType, LocalType),
    SharedParam(LocalType),
    SharedClosure(LocalType),
    NoClosure(LocalType, LocalType),
    UniqParam(LocalType),
    InNonUniqLambda,
    DefinedTypeParamEq,
}

/// The meaning of a reason.
pub open spec fn info_view(i: MismatchedTypeInfo) -> SInfo {
    match i {
        MismatchedTypeInfo::Param(a, t, b) => SInfo::Param(a, t@, b),
        MismatchedTypeInfo::Type(n, t, l) => SInfo::Type(n@, t@, l),
        MismatchedTypeInfo::Eq(a, b, c) => SInfo::Eq(a, b, c),
        MismatchedTypeInfo::SharedParam(l) => SInfo::SharedParam(l),
        MismatchedTypeInfo::SharedClosure(l) => SInfo::SharedClosure(l),
        MismatchedTypeInfo::NoClosure(a, b) => SInfo::NoClosure(a, b),
        MismatchedTypeInfo::UniqParam(l) => SInfo::UniqParam(l),
        MismatchedTypeInfo::InNonUniqLambda => SInfo::InNonUniqLambda,
        MismatchedTypeInfo::DefinedTypeParamEq => SInfo::DefinedTypeParamEq,
    }
}

/// The meanings of a list of reasons, in order.
#[verifier::opaque]
pub open spec fn infos_view(s: Seq<MismatchedTypeInfo>) -> Seq<SInfo> {
    s.map_values(|i: MismatchedTypeInfo| info_view(i))
}

/// Pushing a reason appends its meaning.
pub proof fn lemma_infos_view_push(s: Seq<MismatchedTypeInfo>, i: MismatchedTypeInfo)
    ensures
        infos_view(s.push(i)) == infos_view(s).push(info_view(i)),
{
    reveal(infos_view);
    assert(infos_view(s.push(i)) =~= infos_view(s).push(info_view(i)));
}

/// The outcome of a match: `None` for an internal error; else the sharing flag where the two
/// match (`None` where they do not), the table of local types left, and the reasons given, in
/// order.
pub type SMatch = Option<(Option<SharedFlag>, SLocalTypes, Seq<SInfo>)>;

/// What the outcome `m` of a match says of the result `r`, the final table `t` and the reasons
/// `infos` after a match that started with reasons `infos0`.
pub open spec fn match_result(
    m: SMatch,
    r: FrontendInternalResult<Option<SharedFlag>>,
    t: SLocalTypes,
    infos0: Seq<MismatchedTypeInfo>,
    infos: Seq<MismatchedTypeInfo>,
) -> bool {
    match m {
        Some((f, t2, v)) => r matches Ok(g) && g == f && t == t2 && infos_view(infos) == infos_view(infos0) + v,
        None => r is Err,
    }
}

/// Making the closure local types `cs[0..n]` shared in turn from table `s`: whether all could
/// be, the table left and a reason for each that could not; `None` for an internal error.
pub open spec fn spec_closures(tree: STree, s: SLocalTypes, cs: Seq<LocalType>, n: nat) -> Option<
    (bool, SLocalTypes, Seq<SInfo>),
>
    decreases n,
{
    if n == 0 {
        Some((true, s, Seq::empty()))
    } else {
        match spec_closures(tree, s, cs, (n - 1) as nat) {
            None => None,
            Some((ok, t, v)) => {
                let o = spec_set_shared(tree, t, STypeValue::Param(UniqFlag::NonUniq, cs[n - 1]), TypeMatcher::fuel());
                match o {
                    None => None,
                    Some((b, _)) => Some(
                        (
                            ok && b,
                            after_set_shared(t, o),
                            if b {
                                v
                            } else {
                                v.push(SInfo::SharedClosure(cs[n - 1]))
                            },
                        ),
                    ),
                }
            },
        }
    }
}

/// The reasons for the traits among `names[0..n]` that entry `p2` lacks, which the type
/// parameter `l1` requires and the type parameter `l2` does not.
pub open spec fn spec_missing_traits(
    names: Seq<STraitName>,
    p2: SParamEntry,
    l1: LocalType,
    l2: LocalType,
    n: nat,
) -> Seq<SInfo>
    decreases n,
{
    if n == 0 {
        Seq::empty()
    } else {
        let v = spec_missing_traits(names, p2, l1, l2, (n - 1) as nat);
        if p2.trait_names.contains(names[n - 1]) {
            v
        } else {
            v.push(SInfo::Param(l2, names[n - 1], l1))
        }
    }
}

/// The reasons for the local types `0..n` of the defined type's equations that are in the
/// equation class of `l1` and not in that of `l2` on table `s`.
pub open spec fn spec_eq_reasons(s: SLocalTypes, l1: LocalType, l2: LocalType, n: nat) -> Seq<SInfo>
    decreases n,
{
    if n == 0 {
        Seq::empty()
    } else {
        let v = spec_eq_reasons(s, l1, l2, (n - 1) as nat);
        let x = (n - 1) as int;
        if !in_eq_class(s, l2, x) && in_eq_class(s, l1, x) {
            v.push(SInfo::Eq(l1, LocalType { idx: x as usize }, l2))
        } else {
            v
        }
    }
}

/// The reasons for the closures among `cs[0..n]` that do not capture the defined type
/// parameter `l2` (entry `p2`).
pub open spec fn spec_no_closures(cs: Seq<LocalType>, p2: SParamEntry, l2: LocalType, n: nat) -> Seq<SInfo>
    decreases n,
{
    if n == 0 {
        Seq::empty()
    } else {
        let v = spec_no_closures(cs, p2, l2, (n - 1) as nat);
        if p2.closure_local_types.contains(cs[n - 1]) {
            v
        } else {
            v.push(SInfo::NoClosure(cs[n - 1], l2))
        }
    }
}

/// The reasons for the traits among `names[0..n]` that the type `t` of sharing `g` does not
/// satisfy, which the type parameter `l1` requires; `None` for an internal error.
pub open spec fn spec_trait_reasons(
    tree: STree,
    names: Seq<STraitName>,
    t: STypeValue,
    g: SharedFlag,
    l1: LocalType,
    n: nat,
) -> Option<Seq<SInfo>>
    decreases n,
{
    if n == 0 {
        Some(Seq::empty())
    } else {
        match spec_trait_reasons(tree, names, t, g, l1, (n - 1) as nat) {
            None => None,
            Some(v) => match trait_satisfied(tree, names[n - 1], t, g) {
                None => None,
                Some(true) => Some(v),
                Some(false) => Some(v.push(SInfo::Type(stv_type_name(t).unwrap(), names[n - 1], l1))),
            },
        }
    }
}

/// The outcome of matching two type values on table `s` with `fuel` levels left: an internal
/// error where none is left or a type value stands for nothing, else that of matching the
/// entries they stand for one level down.
pub open spec fn spec_match_tvs(tree: STree, s: SLocalTypes, tv1: STypeValue, tv2: STypeValue, fuel: nat) -> SMatch
    decreases fuel, 0nat, 0nat,
{
    if fuel == 0 {
        None
    } else {
        match (s.entry_for(tv1), s.entry_for(tv2)) {
            (Some(e1), Some(e2)) => spec_match_entries(tree, s, e1, e2, (fuel - 1) as nat),
            _ => None,
        }
    }
}

/// The outcome of matching the first `n` pairs of two lists of type values in turn, from
/// table `s`: whether all matched, whether all that matched share, the table left and the
/// reasons given; `None` for an internal error.
pub open spec fn spec_match_lists(
    tree: STree,
    s: SLocalTypes,
    a1: Seq<STypeValue>,
    a2: Seq<STypeValue>,
    fuel: nat,
    n: nat,
) -> Option<(bool, SharedFlag, SLocalTypes, Seq<SInfo>)>
    decreases fuel, 1nat, n,
{
    if n == 0 {
        Some((true, SharedFlag::Shared, s, Seq::empty()))
    } else {
        match spec_match_lists(tree, s, a1, a2, fuel, (n - 1) as nat) {
            None => None,
            Some((ok, f, t, v)) => match spec_match_tvs(tree, t, a1[n - 1], a2[n - 1], fuel) {
                None => None,
                Some((None, t2, w)) => Some((false, f, t2, v + w)),
                Some((Some(g), t2, w)) => Some(
                    (ok, if g == SharedFlag::NonShared { SharedFlag::NonShared } else { f }, t2, v + w),
                ),
            },
        }
    }
}

/// The outcome of matching two types: no match where their numbers of arguments or names
/// differ; else the arguments are matched in turn, and where all match, the two share alike
/// computed with the sharing of the arguments, or do not match.
pub open spec fn spec_match_types(tree: STree, s: SLocalTypes, tv1: STypeValue, tv2: STypeValue, fuel: nat) -> SMatch
    decreases fuel, 3nat, 0nat,
{
    match (tv1, tv2) {
        (STypeValue::Type(_, n1, a1), STypeValue::Type(_, n2, a2)) => if a1.len() != a2.len() || n1 != n2 {
            Some((None, s, Seq::empty()))
        } else {
            match spec_match_lists(tree, s, a1, a2, fuel, a1.len()) {
                None => None,
                Some((ok, f, t, v)) => if !ok {
                    Some((None, t, v))
                } else {
                    match (
                        spec_flags(tree, t, tv1, Some(f), TypeMatcher::fuel()),
                        spec_flags(tree, t, tv2, Some(f), TypeMatcher::fuel()),
                    ) {
                        (Some((_, f1)), Some((_, f2))) => Some((if f1 == f2 { Some(f1) } else { None }, t, v)),
                        _ => None,
                    }
                },
            }
        },
        _ => None,
    }
}

/// Matching the type values of two undefined type parameters (entries `p1`, `p2`) from table
/// `s` where both carry some: whether they all matched, the table left and the reasons given;
/// nothing to match where either carries none.
pub open spec fn undefined_lists(tree: STree, s: SLocalTypes, p1: SParamEntry, p2: SParamEntry, fuel: nat) -> Option<
    (bool, SLocalTypes, Seq<SInfo>),
>
    decreases fuel, 2nat, 0nat,
{
    if !is_bare(p1) && !is_bare(p2) {
        match spec_match_lists(tree, s, p1.type_values, p2.type_values, fuel, p1.type_values.len()) {
            None => None,
            Some((ok, _, t, v)) => Some((ok, t, v)),
        }
    } else {
        Some((true, s, Seq::empty()))
    }
}

/// The check of `shared` on one side of two undefined type parameters against the type values
/// of the other, on table `t1`, after reasons `v1` and success `ok1`: where only the other
/// carries type values and requires neither `shared` nor a function, and not all of them are
/// shared, a reason for it.
pub open spec fn undefined_checked(
    tree: STree,
    t1: SLocalTypes,
    ok1: bool,
    v1: Seq<SInfo>,
    p1: SParamEntry,
    l1: LocalType,
    p2: SParamEntry,
    l2: LocalType,
) -> Option<(bool, Seq<SInfo>)> {
    let shared1 = has_trait(p1, STraitName::Shared);
    let shared2 = has_trait(p2, STraitName::Shared);
    if !is_bare(p1) && is_bare(p2) {
        if shared2 && !shared1 && !has_trait(p1, STraitName::Fun) {
            match spec_args_flag(tree, t1, p1.type_values, TypeMatcher::fuel()) {
                None => None,
                Some(f) => if f == SharedFlag::NonShared {
                    Some((false, v1.push(SInfo::SharedParam(l1))))
                } else {
                    Some((ok1, v1))
                },
            }
        } else {
            Some((ok1, v1))
        }
    } else if is_bare(p1) && !is_bare(p2) {
        if shared1 && !shared2 && !has_trait(p2, STraitName::Fun) {
            match spec_args_flag(tree, t1, p2.type_values, TypeMatcher::fuel()) {
                None => None,
                Some(f) => if f == SharedFlag::NonShared {
                    Some((false, v1.push(SInfo::SharedParam(l2))))
                } else {
                    Some((ok1, v1))
                },
            }
        } else {
            Some((ok1, v1))
        }
    } else {
        Some((ok1, v1))
    }
}

/// Making shared, on table `t1`, the closures of the undefined type parameter that does not
/// require `shared` where the other does.
pub open spec fn undefined_closures(tree: STree, t1: SLocalTypes, p1: SParamEntry, p2: SParamEntry) -> Option<
    (bool, SLocalTypes, Seq<SInfo>),
> {
    let shared1 = has_trait(p1, STraitName::Shared);
    let shared2 = has_trait(p2, STraitName::Shared);
    if !shared1 && shared2 {
        spec_closures(tree, t1, p1.closure_local_types, p1.closure_local_types.len())
    } else if shared1 && !shared2 {
        spec_closures(tree, t1, p2.closure_local_types, p2.closure_local_types.len())
    } else {
        Some((true, t1, Seq::empty()))
    }
}

/// The rest of matching two undefined type parameters after their type values, from table
/// `t1`, success `ok1` and reasons `v1`: the check of `shared`, the closures, and where all
/// holds the join with the merged entry.
pub open spec fn undefined_tail(
    tree: STree,
    t1: SLocalTypes,
    ok1: bool,
    v1: Seq<SInfo>,
    u1: UniqFlag,
    p1: SParamEntry,
    l1: LocalType,
    p2: SParamEntry,
    l2: LocalType,
) -> SMatch {
    match undefined_checked(tree, t1, ok1, v1, p1, l1, p2, l2) {
        None => None,
        Some((ok2, v2)) => match undefined_closures(tree, t1, p1, p2) {
            None => None,
            Some((b, t3, w)) => if !(ok2 && b) {
                Some((None, t3, v2 + w))
            } else {
                match join_outcome(tree, t3, l1, l2, u1, merged_param_entry(p1, p2), DefinedFlag::Undefined) {
                    None => None,
                    Some((g, t4)) => Some((Some(g), t4, v2 + w)),
                }
            },
        },
    }
}

/// The outcome of matching two undefined type parameters `l1` (uniqueness `u1`, entry `p1`)
/// and `l2` (`u2`, `p2`): no match where the uniqueness differs; the sharing of `l1` where they
/// are one; no match where both carry type values of different numbers; else the type values
/// are matched where both carry some (`undefined_lists`), then `undefined_tail`.
pub open spec fn spec_match_undefined(
    tree: STree,
    s: SLocalTypes,
    u1: UniqFlag,
    p1: SParamEntry,
    l1: LocalType,
    u2: UniqFlag,
    p2: SParamEntry,
    l2: LocalType,
    fuel: nat,
) -> SMatch
    decreases fuel, 3nat, 0nat,
{
    if u1 != u2 {
        Some((None, s, Seq::empty()))
    } else if l1 == l2 {
        match spec_flags(tree, s, STypeValue::Param(u1, l1), None, TypeMatcher::fuel()) {
            Some((_, f)) => Some((Some(f), s, Seq::empty())),
            None => None,
        }
    } else if !is_bare(p1) && !is_bare(p2) && p1.type_values.len() != p2.type_values.len() {
        Some((None, s, Seq::empty()))
    } else {
        match undefined_lists(tree, s, p1, p2, fuel) {
            None => None,
            Some((ok1, t1, v1)) => undefined_tail(tree, t1, ok1, v1, u1, p1, l1, p2, l2),
        }
    }
}

/// Matching the type values of the undefined type parameter (entry `p1`) with those of the
/// defined one (entry `p2`) from table `s` where `p1` carries some: whether they all matched,
/// the table left and the reasons given; nothing to match otherwise.
pub open spec fn defined_lists(tree: STree, s: SLocalTypes, p1: SParamEntry, p2: SParamEntry, fuel: nat) -> Option<
    (bool, SLocalTypes, Seq<SInfo>),
>
    decreases fuel, 2nat, 0nat,
{
    if !is_bare(p1) {
        match spec_match_lists(tree, s, p1.type_values, p2.type_values, fuel, p1.type_values.len()) {
            None => None,
            Some((ok, _, t, v)) => Some((ok, t, v)),
        }
    } else {
        Some((true, s, Seq::empty()))
    }
}

/// The reasons why the undefined type parameter `l1` (entry `p1`) cannot be the defined one
/// `l2` (entry `p2`) on table `t1`: each trait of `p1` that `p2` lacks, each equation of `l1`
/// that `l2` is not in, and each closure of `p1` that `p2` lacks, in that order.
pub open spec fn defined_reasons_seq(t1: SLocalTypes, p1: SParamEntry, l1: LocalType, p2: SParamEntry, l2: LocalType) -> Seq<SInfo> {
    spec_missing_traits(p1.trait_names, p2, l1, l2, p1.trait_names.len()) + spec_eq_reasons(t1, l1, l2, t1.orig.len())
        + spec_no_closures(p1.closure_local_types, p2, l2, p1.closure_local_types.len())
}

/// The rest of matching the undefined type parameter `l1` with the defined one `l2` after their
/// type values, from table `t1`, success `ok1` and reasons `v1`: the reasons of
/// `defined_reasons_seq`, and where there are none and all matched, the join with the entry of
/// `l2`.
pub open spec fn defined_tail(
    tree: STree,
    t1: SLocalTypes,
    ok1: bool,
    v1: Seq<SInfo>,
    u1: UniqFlag,
    p1: SParamEntry,
    l1: LocalType,
    p2: SParamEntry,
    l2: LocalType,
) -> SMatch {
    let w = defined_reasons_seq(t1, p1, l1, p2, l2);
    if !(ok1 && w.len() == 0) {
        Some((None, t1, v1 + w))
    } else {
        match join_outcome(tree, t1, l1, l2, u1, p2, DefinedFlag::Defined) {
            None => None,
            Some((g, t4)) => Some((Some(g), t4, v1)),
        }
    }
}

/// The outcome of matching the undefined type parameter `l1` (uniqueness `u1`, entry `p1`)
/// with the defined one `l2` (`u2`, `p2`): no match where the uniqueness differs or `p1`
/// carries type values of another number than `p2`; else the type values are matched where
/// `p1` carries some (`defined_lists`), then `defined_tail`.
pub open spec fn spec_match_defined(
    tree: STree,
    s: SLocalTypes,
    u1: UniqFlag,
    p1: SParamEntry,
    l1: LocalType,
    u2: UniqFlag,
    p2: SParamEntry,
    l2: LocalType,
    fuel: nat,
) -> SMatch
    decreases fuel, 3nat, 0nat,
{
    if u1 != u2 {
        Some((None, s, Seq::empty()))
    } else if !is_bare(p1) && p1.type_values.len() != p2.type_values.len() {
        Some((None, s, Seq::empty()))
    } else {
        match defined_lists(tree, s, p1, p2, fuel) {
            None => None,
            Some((ok1, t1, v1)) => defined_tail(tree, t1, ok1, v1, u1, p1, l1, p2, l2),
        }
    }
}

/// Matching the type values of the undefined type parameter (entry `p1`) with the arguments
/// `a2` of a type, from table `s`, where `p1` carries some: whether they all matched, whether
/// those that matched share, the table left and the reasons given; nothing to match otherwise.
pub open spec fn type_lists(tree: STree, s: SLocalTypes, p1: SParamEntry, a2: Seq<STypeValue>, fuel: nat) -> Option<
    (bool, SharedFlag, SLocalTypes, Seq<SInfo>),
>
    decreases fuel, 2nat, 0nat,
{
    if !is_bare(p1) {
        spec_match_lists(tree, s, p1.type_values, a2, fuel, a2.len())
    } else {
        Some((true, SharedFlag::Shared, s, Seq::empty()))
    }
}

/// The rest of matching the undefined type parameter `l1` (entry `p1`) with the type `t` after
/// the type values, from table `t1`, success `ok1`, sharing `f` of the matched arguments and
/// reasons `v1`: the sharing of `t` is computed (with `f` where `p1` carries type values), a
/// reason is given for each trait of `p1` that `t` does not satisfy, closures of `l1` are made
/// shared where `t` is shared and `l1` does not require `shared`, and reasons are given where `t`
/// is not shared though `l1` stands in a non-unique lambda and where `l1` stands in an equation
/// of the defined type's type parameters; where there is no reason, `l1` is bound to `t`.
#[verifier::opaque]
pub open spec fn type_tail(
    tree: STree,
    t1: SLocalTypes,
    ok1: bool,
    f: SharedFlag,
    v1: Seq<SInfo>,
    p1: SParamEntry,
    l1: LocalType,
    t: STypeValue,
) -> SMatch {
    let flags = if !is_bare(p1) {
        spec_flags(tree, t1, t, Some(f), TypeMatcher::fuel())
    } else {
        spec_flags(tree, t1, t, None, TypeMatcher::fuel())
    };
    match flags {
        None => None,
        Some((_, g)) => match spec_trait_reasons(tree, p1.trait_names, t, g, l1, p1.trait_names.len()) {
            None => None,
            Some(v2) => {
                let closures = if !has_trait(p1, STraitName::Shared) && g == SharedFlag::Shared {
                    spec_closures(tree, t1, p1.closure_local_types, p1.closure_local_types.len())
                } else {
                    Some((true, t1, Seq::empty()))
                };
                match closures {
                    None => None,
                    Some((b, t3, w)) => {
                        let lambda = l1.idx < t3.len() && t3.eq_entry_of(l1.idx as int).is_in_non_uniq_lambda && g
                            == SharedFlag::NonShared;
                        let defined = l1.idx < t3.len() && t3.eq_entry_of(l1.idx as int).is_defined;
                        let v = v1 + v2 + w + (if lambda {
                            seq![SInfo::InNonUniqLambda]
                        } else {
                            Seq::empty()
                        }) + (if defined {
                            seq![SInfo::DefinedTypeParamEq]
                        } else {
                            Seq::empty()
                        });
                        if !(ok1 && v2.len() == 0 && b && !lambda && !defined) {
                            Some((None, t3, v))
                        } else if l1.idx < t3.len() {
                            Some((Some(g), with_type_value(t3, l1, t), v))
                        } else {
                            Some((Some(g), t3, v))
                        }
                    },
                }
            },
        },
    }
}

/// The outcome of matching the undefined type parameter `l1` (uniqueness `u1`, entry `p1`)
/// with the type `t` given the outcome `lists` of matching its type values with the arguments
/// of `t`: an internal error where `t` is a type parameter; no match where `l1` is unique and
/// `t` is not, or where `p1` carries type values of another number than `t` has arguments; else
/// `type_tail` after `lists`.
#[verifier::opaque]
pub open spec fn type_after_lists(
    tree: STree,
    s: SLocalTypes,
    u1: UniqFlag,
    p1: SParamEntry,
    l1: LocalType,
    t: STypeValue,
    lists: Option<(bool, SharedFlag, SLocalTypes, Seq<SInfo>)>,
) -> SMatch {
    match t {
        STypeValue::Param(_, _) => None,
        STypeValue::Type(u2, _, a2) => if u1 == UniqFlag::Uniq && u2 == UniqFlag::NonUniq {
            Some((None, s, Seq::empty()))
        } else if !is_bare(p1) && p1.type_values.len() != a2.len() {
            Some((None, s, Seq::empty()))
        } else {
            match lists {
                None => None,
                Some((ok1, f, t1, v1)) => type_tail(tree, t1, ok1, f, v1, p1, l1, t),
            }
        },
    }
}

/// The outcome of matching the undefined type parameter `l1` (uniqueness `u1`, entry `p1`)
/// with the type `t`: `type_after_lists` with the outcome of `type_lists` on the arguments of
/// `t`.
pub open spec fn spec_match_type(
    tree: STree,
    s: SLocalTypes,
    u1: UniqFlag,
    p1: SParamEntry,
    l1: LocalType,
    t: STypeValue,
    fuel: nat,
) -> SMatch
    decreases fuel, 3nat, 0nat,
{
    match t {
        STypeValue::Param(_, _) => None,
        STypeValue::Type(_, _, a2) => type_after_lists(tree, s, u1, p1, l1, t, type_lists(tree, s, p1, a2, fuel)),
    }
}

/// An internal error while checking a prefix of the traits stays one for every longer prefix.
pub proof fn lemma_trait_reasons_none(
    tree: STree,
    names: Seq<STraitName>,
    t: STypeValue,
    g: SharedFlag,
    l1: LocalType,
    n: nat,
    m: nat,
)
    requires
        n <= m,
        spec_trait_reasons(tree, names, t, g, l1, n) is None,
    ensures
        spec_trait_reasons(tree, names, t, g, l1, m) is None,
    decreases m - n,
{
    if n < m {
        assert(spec_trait_reasons(tree, names, t, g, l1, (n + 1) as nat) is None);
        lemma_trait_reasons_none(tree, names, t, g, l1, (n + 1) as nat, m);
    }
}

/// The outcome of matching two entries of the table `s` (see the functions above for each
/// pair of kinds): two defined type parameters match only where they are one, with its sharing;
/// a defined type parameter and a type never match.
pub open spec fn spec_match_entries(tree: STree, s: SLocalTypes, e1: SEntry, e2: SEntry, fuel: nat) -> SMatch
    decreases fuel, 4nat, 0nat,
{
    match (e1, e2) {
        (SEntry::Param(DefinedFlag::Undefined, u1, p1, l1), SEntry::Param(DefinedFlag::Undefined, u2, p2, l2)) =>
            spec_match_undefined(tree, s, u1, p1, l1, u2, p2, l2, fuel),
        (SEntry::Param(DefinedFlag::Undefined, u1, p1, l1), SEntry::Param(DefinedFlag::Defined, u2, p2, l2)) =>
            spec_match_defined(tree, s, u1, p1, l1, u2, p2, l2, fuel),
        (SEntry::Param(DefinedFlag::Undefined, u1, p1, l1), SEntry::Type(t)) => spec_match_type(
            tree,
            s,
            u1,
            p1,
            l1,
            t,
            fuel,
        ),
        (SEntry::Param(DefinedFlag::Defined, u1, p1, l1), SEntry::Param(DefinedFlag::Undefined, u2, p2, l2)) =>
            spec_match_defined(tree, s, u2, p2, l2, u1, p1, l1, fuel),
        (SEntry::Param(DefinedFlag::Defined, u1, _, l1), SEntry::Param(DefinedFlag::Defined, u2, _, l2)) => if u1
            != u2 || l1 != l2 {
            Some((None, s, Seq::empty()))
        } else {
            match spec_flags(tree, s, STypeValue::Param(u1, l1), None, TypeMatcher::fuel()) {
                Some((_, f)) => Some((Some(f), s, Seq::empty())),
                None => None,
            }
        },
        (SEntry::Type(t), SEntry::Param(DefinedFlag::Undefined, u2, p2, l2)) => spec_match_type(
            tree,
            s,
            u2,
            p2,
            l2,
            t,
            fuel,
        ),
        (SEntry::Type(t1), SEntry::Type(t2)) => spec_match_types(tree, s, t1, t2, fuel),
        _ => Some((None, s, Seq::empty())),
    }
}

/// What the outcome `o` of making closures shared says of the result `r`, the final table `t`
/// and the reasons `infos` after starting with reasons `infos0`.
pub open spec fn closures_result(
    o: Option<(bool, SLocalTypes, Seq<SInfo>)>,
    r: FrontendInternalResult<bool>,
    t: SLocalTypes,
    infos0: Seq<MismatchedTypeInfo>,
    infos: Seq<MismatchedTypeInfo>,
) -> bool {
    match o {
        Some((b, t2, v)) => r matches Ok(c) && c == b && t == t2 && infos_view(infos) == infos_view(infos0) + v,
        None => r is Err,
    }
}

/// An internal error while making a prefix of the closures shared stays one for every longer
/// prefix.
pub proof fn lemma_closures_none(tree: STree, s: SLocalTypes, cs: Seq<LocalType>, n: nat, m: nat)
    requires
        n <= m,
        spec_closures(tree, s, cs, n) is None,
    ensures
        spec_closures(tree, s, cs, m) is None,
    decreases m - n,
{
    if n < m {
        assert(spec_closures(tree, s, cs, (n + 1) as nat) is None);
        lemma_closures_none(tree, s, cs, (n + 1) as nat, m);
    }
}

/// Appending a reason after `v` appends its meaning after `v`.
pub proof fn lemma_infos_view_append(s: Seq<MismatchedTypeInfo>, v: Seq<SInfo>, i: MismatchedTypeInfo)
    ensures
        (infos_view(s) + v).push(info_view(i)) == infos_view(s) + v.push(info_view(i)),
{
    assert((infos_view(s) + v).push(info_view(i)) =~= infos_view(s) + v.push(info_view(i)));
}

/// What the outcome `o` of matching two lists of type values says of the result `r`, the final
/// table `t` and the reasons `infos` after starting with reasons `infos0`.
pub open spec fn lists_result(
    o: Option<(bool, SharedFlag, SLocalTypes, Seq<SInfo>)>,
    r: FrontendInternalResult<(bool, SharedFlag)>,
    t: SLocalTypes,
    infos0: Seq<MismatchedTypeInfo>,
    infos: Seq<MismatchedTypeInfo>,
) -> bool {
    match o {
        Some((ok, f, t2, v)) => r matches Ok(p) && p == (ok, f) && t == t2 && infos_view(infos) == infos_view(infos0) + v,
        None => r is Err,
    }
}

/// An internal error while matching a prefix of two lists stays one for every longer prefix.
pub proof fn lemma_match_lists_none(
    tree: STree,
    s: SLocalTypes,
    a1: Seq<STypeValue>,
    a2: Seq<STypeValue>,
    fuel: nat,
    n: nat,
    m: nat,
)
    requires
        n <= m,
        spec_match_lists(tree, s, a1, a2, fuel, n) is None,
    ensures
        spec_match_lists(tree, s, a1, a2, fuel, m) is None,
    decreases m - n,
{
    if n < m {
        assert(spec_match_lists(tree, s, a1, a2, fuel, (n + 1) as nat) is None);
        lemma_match_lists_none(tree, s, a1, a2, fuel, (n + 1) as nat, m);
    }
}

/// The reasons given where the type parameter `l1` stands in a non-unique lambda and the type is
/// not shared (`lambda`), and where it stands in an equation of the defined type's type
/// parameters (`defined`), in that order.
pub open spec fn flag_reasons(lambda: bool, defined: bool) -> Seq<SInfo> {
    (if lambda {
        seq![SInfo::InNonUniqLambda]
    } else {
        Seq::empty()
    }) + (if defined {
        seq![SInfo::DefinedTypeParamEq]
    } else {
        Seq::empty()
    })
}

/// What `type_tail` comes to from the sharing `g` of the type, the trait reasons `v2`, the
/// outcome `(b, t3, w)` of the closures and the two flags of `l1`.
pub proof fn lemma_type_tail(
    tree: STree,
    t1: SLocalTypes,
    ok1: bool,
    f: SharedFlag,
    v1: Seq<SInfo>,
    p1: SParamEntry,
    l1: LocalType,
    t: STypeValue,
    g: SharedFlag,
    v2: Seq<SInfo>,
    b: bool,
    t3: SLocalTypes,
    w: Seq<SInfo>,
)
    requires
        (if !is_bare(p1) {
            spec_flags(tree, t1, t, Some(f), TypeMatcher::fuel())
        } else {
            spec_flags(tree, t1, t, None, TypeMatcher::fuel())
        }) matches Some((_, gg)) && gg == g,
        spec_trait_reasons(tree, p1.trait_names, t, g, l1, p1.trait_names.len()) == Some(v2),
        (if !has_trait(p1, STraitName::Shared) && g == SharedFlag::Shared {
            spec_closures(tree, t1, p1.closure_local_types, p1.closure_local_types.len())
        } else {
            Some((true, t1, Seq::empty()))
        }) == Some((b, t3, w)),
    ensures
        ({
            let lambda = l1.idx < t3.len() && t3.eq_entry_of(l1.idx as int).is_in_non_uniq_lambda && g
                == SharedFlag::NonShared;
            let defined = l1.idx < t3.len() && t3.eq_entry_of(l1.idx as int).is_defined;
            let success = ok1 && v2.len() == 0 && b && !lambda && !defined;
            type_tail(tree, t1, ok1, f, v1, p1, l1, t) == Some(
                (
                    if success {
                        Some(g)
                    } else {
                        None
                    },
                    if success && l1.idx < t3.len() {
                        with_type_value(t3, l1, t)
                    } else {
                        t3
                    },
                    v1 + v2 + w + flag_reasons(lambda, defined),
                ),
            )
        }),
{
    reveal(type_tail);
    let lambda = l1.idx < t3.len() && t3.eq_entry_of(l1.idx as int).is_in_non_uniq_lambda && g
        == SharedFlag::NonShared;
    let defined = l1.idx < t3.len() && t3.eq_entry_of(l1.idx as int).is_defined;
    assert(v1 + v2 + w + flag_reasons(lambda, defined) =~= v1 + v2 + w + (if lambda {
        seq![SInfo::InNonUniqLambda]
    } else {
        Seq::empty()
    }) + (if defined {
        seq![SInfo::DefinedTypeParamEq]
    } else {
        Seq::empty()
    }));
}

/// Reasons left as they were add no meaning.
pub proof fn lemma_no_new_infos(a: Seq<MismatchedTypeInfo>, b: Seq<MismatchedTypeInfo>)
    requires
        a == b,
    ensures
        infos_view(b) == infos_view(a) + Seq::<SInfo>::empty(),
{
    assert(infos_view(a) + Seq::<SInfo>::empty() =~= infos_view(a));
}

/// Pushing the reasons of `flag_reasons` in order appends their meanings.
pub proof fn lemma_flag_pushes(
    infos3: Seq<MismatchedTypeInfo>,
    infos4: Seq<MismatchedTypeInfo>,
    infos: Seq<MismatchedTypeInfo>,
    lam: bool,
    def: bool,
)
    requires
        infos4 == (if lam {
            infos3.push(MismatchedTypeInfo::InNonUniqLambda)
        } else {
            infos3
        }),
        infos == (if def {
            infos4.push(MismatchedTypeInfo::DefinedTypeParamEq)
        } else {
            infos4
        }),
    ensures
        infos_view(infos) == infos_view(infos3) + flag_reasons(lam, def),
{
    lemma_infos_view_push(infos3, MismatchedTypeInfo::InNonUniqLambda);
    lemma_infos_view_push(infos4, MismatchedTypeInfo::DefinedTypeParamEq);
    assert(infos_view(infos) =~= infos_view(infos3) + flag_reasons(lam, def));
}

/// The outcome of matching an undefined type parameter with a type, put together from its
/// steps: the sharing `g` of the type, the trait reasons `v2`, the closures `(b, t3, w)`, the
/// two flags of `l1` and the reasons given at each step.
pub proof fn lemma_type_leaf_end(
    tree: STree,
    s0: SLocalTypes,
    u1: UniqFlag,
    p1: SParamEntry,
    l1: LocalType,
    t: STypeValue,
    fuel: nat,
    t1: SLocalTypes,
    ok1: bool,
    f1: SharedFlag,
    v1: Seq<SInfo>,
    g: SharedFlag,
    v2: Seq<SInfo>,
    b: bool,
    t3: SLocalTypes,
    w: Seq<SInfo>,
    lambda: bool,
    defined: bool,
    success: bool,
    infos0: Seq<MismatchedTypeInfo>,
    infos_t0: Seq<MismatchedTypeInfo>,
    infos_c0: Seq<MismatchedTypeInfo>,
    infos3: Seq<MismatchedTypeInfo>,
    infos: Seq<MismatchedTypeInfo>,
)
    requires
        spec_match_type(tree, s0, u1, p1, l1, t, fuel) == type_tail(tree, t1, ok1, f1, v1, p1, l1, t),
        (if !is_bare(p1) {
            spec_flags(tree, t1, t, Some(f1), TypeMatcher::fuel())
        } else {
            spec_flags(tree, t1, t, None, TypeMatcher::fuel())
        }) matches Some((_, gg)) && gg == g,
        spec_trait_reasons(tree, p1.trait_names, t, g, l1, p1.trait_names.len()) == Some(v2),
        (if !has_trait(p1, STraitName::Shared) && g == SharedFlag::Shared {
            spec_closures(tree, t1, p1.closure_local_types, p1.closure_local_types.len())
        } else {
            Some((true, t1, Seq::empty()))
        }) == Some((b, t3, w)),
        lambda == (l1.idx < t3.len() && t3.eq_entry_of(l1.idx as int).is_in_non_uniq_lambda),
        defined == (l1.idx < t3.len() && t3.eq_entry_of(l1.idx as int).is_defined),
        success == (ok1 && v2.len() == 0 && b && !(lambda && g == SharedFlag::NonShared) && !defined),
        infos_view(infos_t0) == infos_view(infos0) + v1,
        infos_view(infos_c0) == infos_view(infos_t0) + v2,
        infos_view(infos3) == infos_view(infos_c0) + w,
        infos_view(infos) == infos_view(infos3) + flag_reasons(lambda && g == SharedFlag::NonShared, defined),
    ensures
        !success ==> match_result(
            spec_match_type(tree, s0, u1, p1, l1, t, fuel),
            FrontendInternalResult::<Option<SharedFlag>>::Ok(None),
            t3,
            infos0,
            infos,
        ),
        success ==> (spec_match_type(tree, s0, u1, p1, l1, t, fuel) matches Some((Some(gg), tt, vv)) && gg == g
            && tt == (if l1.idx < t3.len() {
            with_type_value(t3, l1, t)
        } else {
            t3
        }) && infos_view(infos) == infos_view(infos0) + vv),
{
    lemma_type_tail(tree, t1, ok1, f1, v1, p1, l1, t, g, v2, b, t3, w);
    let v = v1 + v2 + w + flag_reasons(lambda && g == SharedFlag::NonShared, defined);
    assert(infos_view(infos) =~= infos_view(infos0) + v);
}

/// What the outcome `m` of a match says of the public result `r` and the final table `t`:
/// `Matched` where it gives a sharing flag, `Mismatched` with exactly its reasons, in order,
/// where it gives none, and an internal error where it is `None`.
pub open spec fn public_match_result(m: SMatch, r: FrontendInternalResult<TypeMatcherResult>, t: SLocalTypes) -> bool {
    match m {
        Some((Some(_), t2, _)) => r matches Ok(TypeMatcherResult::Matched) && t == t2,
        Some((None, t2, v)) => r matches Ok(TypeMatcherResult::Mismatched(infos)) && infos_view(infos@) == v && t == t2,
        None => r is Err,
    }
}

/// No reasons mean nothing.
pub proof fn lemma_infos_view_empty(v: Seq<SInfo>)
    ensures
        infos_view(Seq::<MismatchedTypeInfo>::empty()) + v == v,
{
    reveal(infos_view);
    assert(infos_view(Seq::<MismatchedTypeInfo>::empty()) + v =~= v);
}

} // verus!
