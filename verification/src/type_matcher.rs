use vstd::prelude::*;
use crate::entries::{
    SEntry, SParamEntry, TypeParamEntry, has_trait, is_bare, trait_insert, trait_names_union, local_types_union, insert_trait_name, trait_names_view,
    LocalTypeEntry,
};
use crate::env::{
    Builtins, STree, STypeName, TypeName, TypeVarKind, Tree, find_primitive, find_trait, find_type_var,
    has_impl, stv_type_name,
};
use crate::local_types::{
    LocalTypes, SLocalTypes, with_param_entry, join_root, join_eq_root, joined, with_type_value, after_set_uniq, keeps_classes, keeps_eq_flags, lemma_keeps_eq_flags_trans,
    lemma_keeps_same_roots, lemma_keeps_trans, with_trait_names,
};
use crate::display::lts_text;
use crate::match_spec::{
    SInfo, closures_result, infos_view, info_view, lemma_closures_none, lemma_infos_view_append, lemma_infos_view_push,
    spec_closures, lists_result, match_result, lemma_match_lists_none, spec_match_lists, spec_match_tvs,
    spec_match_entries, spec_match_types, spec_match_undefined, spec_match_defined, spec_match_type,
    undefined_lists, undefined_checked, undefined_closures, undefined_tail, defined_lists, defined_tail,
    defined_reasons_seq, spec_missing_traits, spec_eq_reasons, spec_no_closures, type_lists, type_tail,
    spec_trait_reasons, lemma_trait_reasons_none, flag_reasons, lemma_type_tail, type_after_lists, lemma_no_new_infos, lemma_flag_pushes, lemma_type_leaf_end, public_match_result, lemma_infos_view_empty,
};
use crate::text::{append_decimal, decimal};
use crate::types::{
    FrontendInternalResult, LocalType, SharedFlag, STraitName, STypeValue, STypeValueName,
    TraitName, TypeValue, TypeValueName, UniqFlag, internal_error, lemma_type_values_view,
    type_values_view, DefinedFlag,
};

verus! {

/// How many levels of type arguments and bindings are followed before the sharing, casting
/// and matching of type values give up with an internal error. Each level is a recursive
/// call, so a descent of this many levels exhausts the stack first; and since each level steps
/// either into a type argument held in memory or through a binding of the table of local types,
/// such a descent passes one place twice unless a type parameter is bound to a type that
/// contains it, where an unbounded descent would not end.
pub const TYPE_DEPTH_LIMIT: usize = 0xffff_ffff;

/// Whether values of a named, tuple, function or array type can be shared, before its type
/// arguments are considered; `None` when the name is not a builtin or data type whose sharing
/// was evaluated.
pub open spec fn name_shared_flag(tree: STree, n: STypeValueName) -> Option<SharedFlag> {
    match n {
        STypeValueName::Name(id) => match find_type_var(tree.type_vars, id) {
            Some(v) => if (v.kind == TypeVarKind::Builtin || v.kind == TypeVarKind::Data)
                && v.shared_flag is Some {
                v.shared_flag
            } else {
                None
            },
            None => None,
        },
        _ => Some(SharedFlag::Shared),
    }
}

pub open spec fn shared_and(f: SharedFlag, g: SharedFlag) -> SharedFlag {
    if f == SharedFlag::NonShared || g == SharedFlag::NonShared {
        SharedFlag::NonShared
    } else {
        SharedFlag::Shared
    }
}

/// The uniqueness of a shared flag: what cannot be shared is unique.
pub open spec fn uniq_of_shared(f: SharedFlag) -> UniqFlag {
    if f == SharedFlag::NonShared {
        UniqFlag::Uniq
    } else {
        UniqFlag::NonUniq
    }
}

/// The uniqueness and sharing of the type that `tv` stands for, following type arguments at
/// most `fuel` levels deep; `arg_flag` gives the sharing of the type arguments where the caller
/// knows it. `None` stands for an internal error.
///
/// A non-unique type parameter is shared when it requires `shared`; a unique one is neither.
/// A non-unique function type is shared. Another non-unique type is shared when its head is
/// shared and so are its type arguments; otherwise it is unique. A unique type is not shared.
pub open spec fn spec_flags(
    tree: STree,
    lts: SLocalTypes,
    tv: STypeValue,
    arg_flag: Option<SharedFlag>,
    fuel: nat,
) -> Option<(UniqFlag, SharedFlag)>
    decreases fuel, 0nat,
{
    if fuel == 0 {
        None
    } else {
        match lts.entry_for(tv) {
            None => None,
            Some(SEntry::Param(_, u, e, _)) => if u == UniqFlag::NonUniq {
                Some(
                    (
                        UniqFlag::NonUniq,
                        if has_trait(e, STraitName::Shared) {
                            SharedFlag::Shared
                        } else {
                            SharedFlag::NonShared
                        },
                    ),
                )
            } else {
                Some((UniqFlag::Uniq, SharedFlag::NonShared))
            },
            Some(SEntry::Type(t)) => match t {
                STypeValue::Param(_, _) => None,
                STypeValue::Type(u, n, args) => if u == UniqFlag::Uniq {
                    Some((UniqFlag::Uniq, SharedFlag::NonShared))
                } else if n == STypeValueName::Fun {
                    Some((UniqFlag::NonUniq, SharedFlag::Shared))
                } else {
                    match name_shared_flag(tree, n) {
                        None => None,
                        Some(base) => {
                            let f = match arg_flag {
                                Some(SharedFlag::NonShared) => Some(SharedFlag::NonShared),
                                Some(SharedFlag::Shared) => Some(base),
                                None => if base == SharedFlag::Shared {
                                    spec_args_flag(tree, lts, args, (fuel - 1) as nat)
                                } else {
                                    Some(base)
                                },
                            };
                            match f {
                                None => None,
                                Some(f) => Some((uniq_of_shared(f), f)),
                            }
                        },
                    }
                },
            },
        }
    }
}

/// Whether all type values of `args` are shared (see `spec_flags`), or `None` when any of them
/// gives an internal error.
pub open spec fn spec_args_flag(tree: STree, lts: SLocalTypes, args: Seq<STypeValue>, fuel: nat) -> Option<
    SharedFlag,
>
    decreases fuel, args.len(),
{
    if args.len() == 0 {
        Some(SharedFlag::Shared)
    } else {
        match spec_args_flag(tree, lts, args.drop_last(), fuel) {
            None => None,
            Some(f) => match spec_flags(tree, lts, args.last(), None, fuel) {
                None => None,
                Some((_, g)) => Some(shared_and(f, g)),
            },
        }
    }
}

/// The uniqueness that `tv` has by itself: that of its type parameter or of the type it stands
/// for; `None` for an internal error.
pub open spec fn spec_real_uniq(lts: SLocalTypes, tv: STypeValue) -> Option<UniqFlag> {
    match lts.entry_for(tv) {
        Some(SEntry::Param(_, u, _, _)) => Some(u),
        Some(SEntry::Type(STypeValue::Type(u, _, _))) => Some(u),
        _ => None,
    }
}

/// The entry with `shared` added to its trait names.
pub open spec fn with_shared(e: SEntry) -> SEntry {
    match e {
        SEntry::Param(_, _, p, _) => with_trait_names(e, trait_insert(p.trait_names, STraitName::Shared)),
        SEntry::Type(_) => e,
    }
}

/// The outcome of making the type that `tv` stands for shared: whether it is (or became)
/// shared, and the local type whose parameter entry gains `shared`; `None` for an internal
/// error.
///
/// A non-unique type parameter that requires `shared` is shared already. Otherwise an undefined
/// non-unique one becomes shared when it requires a function or when all the type values that
/// it carries are shared; a defined one or a unique one does not; a type is shared when
/// `spec_flags` says it is.
pub open spec fn spec_set_shared(tree: STree, lts: SLocalTypes, tv: STypeValue, fuel: nat) -> Option<
    (bool, Option<LocalType>),
> {
    match lts.entry_for(tv) {
        None => None,
        Some(SEntry::Param(d, u, e, l)) => if u == UniqFlag::Uniq {
            Some((false, None))
        } else if has_trait(e, STraitName::Shared) {
            Some((true, None))
        } else if d == crate::types::DefinedFlag::Defined {
            Some((false, None))
        } else if has_trait(e, STraitName::Fun) {
            Some((true, Some(l)))
        } else {
            match spec_args_flag(tree, lts, e.type_values, fuel) {
                None => None,
                Some(SharedFlag::NonShared) => Some((false, None)),
                Some(SharedFlag::Shared) => Some((true, Some(l))),
            }
        },
        Some(SEntry::Type(t)) => match spec_flags(tree, lts, t, None, fuel) {
            None => None,
            Some((_, f)) => Some((f == SharedFlag::Shared, None)),
        },
    }
}

/// The table after `spec_set_shared` gave `outcome`.
pub open spec fn after_set_shared(lts: SLocalTypes, outcome: Option<(bool, Option<LocalType>)>) -> SLocalTypes {
    match outcome {
        Some((_, Some(l))) => SLocalTypes {
            entries: lts.entries.update(l.idx as int, with_shared(lts.entries[l.idx as int])),
            ..lts
        },
        _ => lts,
    }
}

/// Why two types do not match.
#[derive(Debug, PartialEq, Eq)]
pub enum MismatchedTypeInfo {
    Param(LocalType, TraitName, LocalType),
    Type(TypeName, TraitName, LocalType),
    Eq(LocalType, LocalType, LocalType),
    SharedParam(LocalType),
    SharedClosure(LocalType),
    NoClosure(LocalType, LocalType),
    UniqParam(LocalType),
    InNonUniqLambda,
    DefinedTypeParamEq,
}

/// The text of a trait name.
pub open spec fn trait_name_text(t: STraitName) -> Seq<char> {
    match t {
        STraitName::Shared => "shared"@,
        STraitName::Fun => "fun"@,
        STraitName::Name(id) => id,
    }
}

/// The text of a type name.
pub open spec fn type_name_text(t: STypeName) -> Seq<char> {
    match t {
        STypeName::Name(id) => id,
        STypeName::Tuple(k) => "tuple of "@ + decimal(k as nat),
        STypeName::Fun(k) => "function of "@ + decimal(k as nat),
        STypeName::Array(Some(k)) => "array of "@ + decimal(k as nat),
        STypeName::Array(None) => "array"@,
    }
}

/// The text of a local type with the meaning that a table of local types gives it.
pub open spec fn lt_text(s: SLocalTypes, l: LocalType) -> Seq<char> {
    lts_text(s, STypeValue::Param(UniqFlag::NonUniq, l))
}

/// The message that explains why two types do not match.
pub open spec fn mismatch_text(info: MismatchedTypeInfo, s: SLocalTypes) -> Seq<char> {
    match info {
        MismatchedTypeInfo::Param(l1, t, l2) => "type parameter "@ + lt_text(s, l1) + " hasn't trait "@
            + trait_name_text(t@) + " that is required by type parameter "@ + lt_text(s, l2),
        MismatchedTypeInfo::Type(tn, t, l) => "type "@ + type_name_text(tn@)
            + " hasn't implemented trait "@ + trait_name_text(t@)
            + " that is required by type parameter "@ + lt_text(s, l),
        MismatchedTypeInfo::Eq(l1, l2, l3) => "type parameter "@ + lt_text(s, l1)
            + " is equal to type parameter "@ + lt_text(s, l2)
            + " that mustn't be equal to type parameter "@ + lt_text(s, l3),
        MismatchedTypeInfo::SharedParam(l) => "type parameter "@ + lt_text(s, l) + " mustn't shared"@,
        MismatchedTypeInfo::SharedClosure(l) => "closure variable type "@ + lt_text(s, l)
            + " mustn't shared"@,
        MismatchedTypeInfo::NoClosure(l1, l2) => "closure variable of type "@ + lt_text(s, l1)
            + " isn't in function of type parameter "@ + lt_text(s, l2),
        MismatchedTypeInfo::UniqParam(l) => "type parameter "@ + lt_text(s, l) + " mustn't unique"@,
        MismatchedTypeInfo::InNonUniqLambda =>
            "closure variable type parameter mustn't be unique type in non-unique lambda"@,
        MismatchedTypeInfo::DefinedTypeParamEq =>
            "type parameter mustn't be type in defined type parameter equation"@,
    }
}

fn append_trait_name(s: &mut String, t: &TraitName)
    ensures
        final(s)@ == old(s)@ + trait_name_text(t@),
{
    match t {
        TraitName::Shared => s.append("shared"),
        TraitName::Fun => s.append("fun"),
        TraitName::Name(id) => s.append(id.as_str()),
    }
}

fn append_type_name(s: &mut String, t: &TypeName)
    ensures
        final(s)@ == old(s)@ + type_name_text(t@),
{
    match t {
        TypeName::Name(id) => s.append(id.as_str()),
        TypeName::Tuple(k) => {
            s.append("tuple of ");
            append_decimal(s, *k as u128);
        },
        TypeName::Fun(k) => {
            s.append("function of ");
            append_decimal(s, *k as u128);
        },
        TypeName::Array(Some(k)) => {
            s.append("array of ");
            append_decimal(s, *k as u128);
        },
        TypeName::Array(None) => s.append("array"),
    }
    assert(final(s)@ =~= old(s)@ + type_name_text(t@));
}

/// The type parameter entry with nothing in it.
pub open spec fn empty_param_entry() -> SParamEntry {
    SParamEntry {
        trait_names: Seq::empty(),
        type_values: Seq::empty(),
        closure_local_types: Seq::empty(),
        number: None,
        ident: None,
    }
}

/// A reason why two types do not match, with the table of local types that gives its local
/// types their meaning.
pub struct MismatchedTypeInfoWidthLocalTypes<'a, 'b>(pub &'a MismatchedTypeInfo, pub &'b LocalTypes);

impl<'a, 'b> MismatchedTypeInfoWidthLocalTypes<'a, 'b> {
    /// The message that explains the reason.
    pub fn to_string(&self) -> (r: String)
        requires
            self.1.wf(),
        ensures
            r@ == mismatch_text(*self.0, self.1@),
    {
        let lts = self.1;
        let mut s = String::new();
        match self.0 {
            MismatchedTypeInfo::Param(l1, t, l2) => {
                s.append("type parameter ");
                s.append(lts.local_type_to_string(*l1).as_str());
                s.append(" hasn't trait ");
                append_trait_name(&mut s, t);
                s.append(" that is required by type parameter ");
                s.append(lts.local_type_to_string(*l2).as_str());
            },
            MismatchedTypeInfo::Type(tn, t, l) => {
                s.append("type ");
                append_type_name(&mut s, tn);
                s.append(" hasn't implemented trait ");
                append_trait_name(&mut s, t);
                s.append(" that is required by type parameter ");
                s.append(lts.local_type_to_string(*l).as_str());
            },
            MismatchedTypeInfo::Eq(l1, l2, l3) => {
                s.append("type parameter ");
                s.append(lts.local_type_to_string(*l1).as_str());
                s.append(" is equal to type parameter ");
                s.append(lts.local_type_to_string(*l2).as_str());
                s.append(" that mustn't be equal to type parameter ");
                s.append(lts.local_type_to_string(*l3).as_str());
            },
            MismatchedTypeInfo::SharedParam(l) => {
                s.append("type parameter ");
                s.append(lts.local_type_to_string(*l).as_str());
                s.append(" mustn't shared");
            },
            MismatchedTypeInfo::SharedClosure(l) => {
                s.append("closure variable type ");
                s.append(lts.local_type_to_string(*l).as_str());
                s.append(" mustn't shared");
            },
            MismatchedTypeInfo::NoClosure(l1, l2) => {
                s.append("closure variable of type ");
                s.append(lts.local_type_to_string(*l1).as_str());
                s.append(" isn't in function of type parameter ");
                s.append(lts.local_type_to_string(*l2).as_str());
            },
            MismatchedTypeInfo::UniqParam(l) => {
                s.append("type parameter ");
                s.append(lts.local_type_to_string(*l).as_str());
                s.append(" mustn't unique");
            },
            MismatchedTypeInfo::InNonUniqLambda => {
                s.append("closure variable type parameter mustn't be unique type in non-unique lambda");
            },
            MismatchedTypeInfo::DefinedTypeParamEq => {
                s.append("type parameter mustn't be type in defined type parameter equation");
            },
        }
        assert(s@ =~= mismatch_text(*self.0, self.1@));
        s
    }
}

/// The result of matching two types: matched, or the reasons why not.
#[derive(Debug, PartialEq, Eq)]
pub enum TypeMatcherResult {
    Matched,
    Mismatched(Vec<MismatchedTypeInfo>),
}

/// Matches types and evaluates their uniqueness and sharing.
pub struct TypeMatcher {
    empty_type_param_entry: TypeParamEntry,
}

impl TypeMatcher {
    pub open spec fn fuel() -> nat {
        TYPE_DEPTH_LIMIT as nat
    }

    /// Whether the matcher keeps the empty type parameter entry that it gives joined type
    /// parameters before their class gets its entry.
    pub closed spec fn holds_empty_entry(&self) -> bool {
        self.empty_type_param_entry@ == empty_param_entry()
    }

    /// A matcher always keeps the empty entry.
    #[verifier::type_invariant]
    spec fn empty_entry_kept(&self) -> bool {
        self.holds_empty_entry()
    }

    pub fn new() -> (r: TypeMatcher)
        ensures
            r.holds_empty_entry(),
    {
        TypeMatcher { empty_type_param_entry: TypeParamEntry::new() }
    }

    fn name_shared_flag(tree: &Tree, n: &TypeValueName) -> (r: Option<SharedFlag>)
        ensures
            r == name_shared_flag(tree@, n@),
    {
        match n {
            TypeValueName::Name(id) => match tree.type_var(id) {
                Some(v) => {
                    if (v.kind == TypeVarKind::Builtin || v.kind == TypeVarKind::Data)
                        && v.shared_flag.is_some() {
                        v.shared_flag
                    } else {
                        None
                    }
                },
                None => None,
            },
            _ => Some(SharedFlag::Shared),
        }
    }

    fn uniq_flag_and_shared_flag_for_type_value2(
        &self,
        type_value: &TypeValue,
        type_arg_shared_flag: Option<SharedFlag>,
        tree: &Tree,
        local_types: &LocalTypes,
        fuel: usize,
    ) -> (r: FrontendInternalResult<(UniqFlag, SharedFlag)>)
        requires
            local_types.wf(),
        ensures
            match r {
                Ok(p) => spec_flags(tree@, local_types@, type_value@, type_arg_shared_flag, fuel as nat)
                    == Some(p),
                Err(_) => spec_flags(
                    tree@,
                    local_types@,
                    type_value@,
                    type_arg_shared_flag,
                    fuel as nat,
                ) is None,
            },
            r matches Err(e) ==> e.0@ == spec_flags_error(
                tree@,
                local_types@,
                type_value@,
                type_arg_shared_flag,
                fuel as nat,
            ),
        decreases fuel, 0nat,
    {
        if fuel == 0 {
            return Err(internal_error("uniq_flag_and_shared_flag_for_type_value2: too deep type"));
        }
        let entry = match local_types.type_entry_for_type_value(type_value) {
            Some(e) => e,
            None => {
                return Err(
                    internal_error("uniq_flag_and_shared_flag_for_type_value2: no local type entry"),
                );
            },
        };
        match &entry {
            LocalTypeEntry::Param(_, UniqFlag::NonUniq, e, _) => {
                if e.has_trait_name(&TraitName::Shared) {
                    Ok((UniqFlag::NonUniq, SharedFlag::Shared))
                } else {
                    Ok((UniqFlag::NonUniq, SharedFlag::NonShared))
                }
            },
            LocalTypeEntry::Param(_, UniqFlag::Uniq, _, _) => Ok((UniqFlag::Uniq, SharedFlag::NonShared)),
            LocalTypeEntry::Type(t) => match t {
                TypeValue::Param(_, _) => Err(
                    internal_error(
                        "uniq_flag_and_shared_flag_for_type_value2: type parameter in local type entry",
                    ),
                ),
                TypeValue::Type(UniqFlag::Uniq, _, _) => Ok((UniqFlag::Uniq, SharedFlag::NonShared)),
                TypeValue::Type(UniqFlag::NonUniq, TypeValueName::Fun, _) => Ok(
                    (UniqFlag::NonUniq, SharedFlag::Shared),
                ),
                TypeValue::Type(UniqFlag::NonUniq, n, args) => {
                    let base = match Self::name_shared_flag(tree, n) {
                        Some(b) => b,
                        None => {
                            return Err(
                                internal_error(
                                    "uniq_flag_and_shared_flag_for_type_value2: type variable isn't type or type hasn't shared flag",
                                ),
                            );
                        },
                    };
                    let f = match type_arg_shared_flag {
                        Some(SharedFlag::NonShared) => SharedFlag::NonShared,
                        Some(SharedFlag::Shared) => base,
                        None => {
                            if base == SharedFlag::Shared {
                                self.args_shared_flag(args, tree, local_types, fuel - 1)?
                            } else {
                                base
                            }
                        },
                    };
                    if f == SharedFlag::NonShared {
                        Ok((UniqFlag::Uniq, f))
                    } else {
                        Ok((UniqFlag::NonUniq, f))
                    }
                },
            },
        }
    }

    /// Whether all of `args` are shared (see `spec_args_flag`).
    fn args_shared_flag(
        &self,
        args: &Vec<TypeValue>,
        tree: &Tree,
        local_types: &LocalTypes,
        fuel: usize,
    ) -> (r: FrontendInternalResult<SharedFlag>)
        requires
            local_types.wf(),
        ensures
            match r {
                Ok(f) => spec_args_flag(tree@, local_types@, type_values_view(args@), fuel as nat)
                    == Some(f),
                Err(_) => spec_args_flag(
                    tree@,
                    local_types@,
                    type_values_view(args@),
                    fuel as nat,
                ) is None,
            },
            r matches Err(e) ==> e.0@ == spec_args_error(tree@, local_types@, type_values_view(args@), fuel as nat),
        decreases fuel, args@.len() + 1,
    {
        proof {
            lemma_type_values_view(args@);
        }
        let ghost vs = type_values_view(args@);
        let mut f = SharedFlag::Shared;
        let mut i: usize = 0;
        while i < args.len()
            invariant
                local_types.wf(),
                i <= args@.len(),
                vs == type_values_view(args@),
                vs.len() == args@.len(),
                forall|j: int| 0 <= j < args@.len() ==> #[trigger] vs[j] == args@[j]@,
                spec_args_flag(tree@, local_types@, vs.take(i as int), fuel as nat) == Some(f),
            decreases args@.len() - i,
        {
            proof {
                assert(vs.take(i + 1).drop_last() =~= vs.take(i as int));
                assert(vs.take(i + 1).last() == args@[i as int]@);
            }
            let (_, g) = match self.uniq_flag_and_shared_flag_for_type_value2(
                &args[i],
                None,
                tree,
                local_types,
                fuel,
            ) {
                Ok(p) => p,
                Err(e) => {
                    proof {
                        lemma_args_flag_none_extends(tree@, local_types@, vs, i as int + 1, fuel as nat);
                        assert(vs.take(vs.len() as int) =~= vs);
                        lemma_args_error_at(tree@, local_types@, vs, i as int, vs.len() as int, fuel as nat);
                    }
                    return Err(e);
                },
            };
            if g == SharedFlag::NonShared {
                f = SharedFlag::NonShared;
            }
            i = i + 1;
        }
        assert(vs.take(vs.len() as int) =~= vs);
        Ok(f)
    }
}

/// The message of the internal error at which taking the uniqueness and sharing of type value
/// `tv` stops (see `spec_flags`): too deep a type, no entry, a type parameter kept as a type
/// entry, or a name with no sharing; empty where there is none.
pub open spec fn spec_flags_error(
    tree: STree,
    lts: SLocalTypes,
    tv: STypeValue,
    arg_flag: Option<SharedFlag>,
    fuel: nat,
) -> Seq<char>
    decreases fuel, 0nat,
{
    if fuel == 0 {
        "uniq_flag_and_shared_flag_for_type_value2: too deep type"@
    } else {
        match lts.entry_for(tv) {
            None => "uniq_flag_and_shared_flag_for_type_value2: no local type entry"@,
            Some(SEntry::Param(_, _, _, _)) => Seq::empty(),
            Some(SEntry::Type(t)) => match t {
                STypeValue::Param(_, _) =>
                    "uniq_flag_and_shared_flag_for_type_value2: type parameter in local type entry"@,
                STypeValue::Type(u, n, args) => if u == UniqFlag::Uniq || n == STypeValueName::Fun {
                    Seq::empty()
                } else {
                    match name_shared_flag(tree, n) {
                        None =>
                            "uniq_flag_and_shared_flag_for_type_value2: type variable isn't type or type hasn't shared flag"@,
                        Some(base) => if arg_flag is None && base == SharedFlag::Shared {
                            spec_args_error(tree, lts, args, (fuel - 1) as nat)
                        } else {
                            Seq::empty()
                        },
                    }
                },
            },
        }
    }
}

/// The message of the internal error at which taking the sharing of the type values `args` in
/// turn stops: that of the first one whose sharing stops at one (see `spec_flags_error`).
pub open spec fn spec_args_error(tree: STree, lts: SLocalTypes, args: Seq<STypeValue>, fuel: nat) -> Seq<char>
    decreases fuel, args.len(),
{
    if args.len() == 0 {
        Seq::empty()
    } else if spec_args_flag(tree, lts, args.drop_last(), fuel) is None {
        spec_args_error(tree, lts, args.drop_last(), fuel)
    } else {
        spec_flags_error(tree, lts, args.last(), None, fuel)
    }
}

/// Where the sharing of the first `k` type values comes out and that of the next stops at an
/// internal error, taking the sharing of all of them stops at that error.
pub proof fn lemma_args_error_at(tree: STree, lts: SLocalTypes, vs: Seq<STypeValue>, k: int, m: int, fuel: nat)
    requires
        0 <= k < m <= vs.len(),
        spec_args_flag(tree, lts, vs.take(k), fuel) is Some,
        spec_flags(tree, lts, vs[k], None, fuel) is None,
    ensures
        spec_args_flag(tree, lts, vs.take(m), fuel) is None,
        spec_args_error(tree, lts, vs.take(m), fuel) == spec_flags_error(tree, lts, vs[k], None, fuel),
    decreases m - k,
{
    assert(vs.take(m).drop_last() =~= vs.take(m - 1));
    if m == k + 1 {
        assert(vs.take(m).last() == vs[k]);
    } else {
        lemma_args_error_at(tree, lts, vs, k, m - 1, fuel);
    }
}

/// An internal error among the first `k` type values stays one for longer prefixes.
pub proof fn lemma_args_flag_none_extends(
    tree: STree,
    lts: SLocalTypes,
    vs: Seq<STypeValue>,
    k: int,
    fuel: nat,
)
    requires
        0 <= k <= vs.len(),
        spec_args_flag(tree, lts, vs.take(k), fuel) is None,
    ensures
        spec_args_flag(tree, lts, vs.take(vs.len() as int), fuel) is None,
    decreases vs.len() - k,
{
    if k < vs.len() {
        assert(vs.take(k + 1).drop_last() =~= vs.take(k));
        lemma_args_flag_none_extends(tree, lts, vs, k + 1, fuel);
    }
}

impl TypeMatcher {
    fn uniq_flag_for_type_value2(
        &self,
        type_value: &TypeValue,
        type_arg_shared_flag: Option<SharedFlag>,
        tree: &Tree,
        local_types: &LocalTypes,
    ) -> (r: FrontendInternalResult<UniqFlag>)
        requires
            local_types.wf(),
        ensures
            match r {
                Ok(u) => spec_flags(tree@, local_types@, type_value@, type_arg_shared_flag, Self::fuel())
                    matches Some((v, _)) && v == u,
                Err(e) => spec_flags(
                    tree@,
                    local_types@,
                    type_value@,
                    type_arg_shared_flag,
                    Self::fuel(),
                ) is None && e.0@ == spec_flags_error(
                    tree@,
                    local_types@,
                    type_value@,
                    type_arg_shared_flag,
                    Self::fuel(),
                ),
            },
    {
        match self.uniq_flag_and_shared_flag_for_type_value2(
            type_value,
            type_arg_shared_flag,
            tree,
            local_types,
            TYPE_DEPTH_LIMIT,
        ) {
            Ok((u, _)) => Ok(u),
            Err(e) => Err(e),
        }
    }

    fn shared_flag_for_type_value2(
        &self,
        type_value: &TypeValue,
        type_arg_shared_flag: Option<SharedFlag>,
        tree: &Tree,
        local_types: &LocalTypes,
    ) -> (r: FrontendInternalResult<SharedFlag>)
        requires
            local_types.wf(),
        ensures
            match r {
                Ok(f) => spec_flags(tree@, local_types@, type_value@, type_arg_shared_flag, Self::fuel())
                    matches Some((_, g)) && g == f,
                Err(e) => spec_flags(
                    tree@,
                    local_types@,
                    type_value@,
                    type_arg_shared_flag,
                    Self::fuel(),
                ) is None && e.0@ == spec_flags_error(
                    tree@,
                    local_types@,
                    type_value@,
                    type_arg_shared_flag,
                    Self::fuel(),
                ),
            },
    {
        match self.uniq_flag_and_shared_flag_for_type_value2(
            type_value,
            type_arg_shared_flag,
            tree,
            local_types,
            TYPE_DEPTH_LIMIT,
        ) {
            Ok((_, f)) => Ok(f),
            Err(e) => Err(e),
        }
    }

    /// The uniqueness and sharing of the type that a type value stands for (see `spec_flags`).
    pub fn uniq_flag_and_shared_flag_for_type_value(
        &self,
        type_value: &TypeValue,
        tree: &Tree,
        local_types: &LocalTypes,
    ) -> (r: FrontendInternalResult<(UniqFlag, SharedFlag)>)
        requires
            local_types.wf(),
        ensures
            match r {
                Ok(p) => spec_flags(tree@, local_types@, type_value@, None, Self::fuel()) == Some(p),
                Err(e) => spec_flags(tree@, local_types@, type_value@, None, Self::fuel()) is None && e.0@ == spec_flags_error(tree@, local_types@, type_value@, None, Self::fuel()),
            },
    {
        self.uniq_flag_and_shared_flag_for_type_value2(type_value, None, tree, local_types, TYPE_DEPTH_LIMIT)
    }

    /// The uniqueness and sharing of a local type (see `spec_flags`).
    pub fn uniq_flag_and_shared_flag(
        &self,
        local_type: LocalType,
        tree: &Tree,
        local_types: &LocalTypes,
    ) -> (r: FrontendInternalResult<(UniqFlag, SharedFlag)>)
        requires
            local_types.wf(),
        ensures
            match r {
                Ok(p) => spec_flags(
                    tree@,
                    local_types@,
                    STypeValue::Param(UniqFlag::NonUniq, local_type),
                    None,
                    Self::fuel(),
                ) == Some(p),
                Err(e) => spec_flags(
                    tree@,
                    local_types@,
                    STypeValue::Param(UniqFlag::NonUniq, local_type),
                    None,
                    Self::fuel(),
                ) is None && e.0@ == spec_flags_error(
                    tree@,
                    local_types@,
                    STypeValue::Param(UniqFlag::NonUniq, local_type),
                    None,
                    Self::fuel(),
                ),
            },
    {
        let type_value = TypeValue::Param(UniqFlag::NonUniq, local_type);
        self.uniq_flag_and_shared_flag_for_type_value(&type_value, tree, local_types)
    }

    /// The uniqueness of the type that a type value stands for (see `spec_flags`).
    pub fn uniq_flag_for_type_value(
        &self,
        type_value: &TypeValue,
        tree: &Tree,
        local_types: &LocalTypes,
    ) -> (r: FrontendInternalResult<UniqFlag>)
        requires
            local_types.wf(),
        ensures
            match r {
                Ok(u) => spec_flags(tree@, local_types@, type_value@, None, Self::fuel()) matches Some(
                    (v, _),
                ) && v == u,
                Err(e) => spec_flags(tree@, local_types@, type_value@, None, Self::fuel()) is None && e.0@ == spec_flags_error(tree@, local_types@, type_value@, None, Self::fuel()),
            },
    {
        self.uniq_flag_for_type_value2(type_value, None, tree, local_types)
    }

    /// The uniqueness of a local type (see `spec_flags`).
    pub fn uniq_flag(&self, local_type: LocalType, tree: &Tree, local_types: &LocalTypes) -> (r:
        FrontendInternalResult<UniqFlag>)
        requires
            local_types.wf(),
        ensures
            match r {
                Ok(u) => spec_flags(
                    tree@,
                    local_types@,
                    STypeValue::Param(UniqFlag::NonUniq, local_type),
                    None,
                    Self::fuel(),
                ) matches Some((v, _)) && v == u,
                Err(e) => spec_flags(
                    tree@,
                    local_types@,
                    STypeValue::Param(UniqFlag::NonUniq, local_type),
                    None,
                    Self::fuel(),
                ) is None && e.0@ == spec_flags_error(
                    tree@,
                    local_types@,
                    STypeValue::Param(UniqFlag::NonUniq, local_type),
                    None,
                    Self::fuel(),
                ),
            },
    {
        let type_value = TypeValue::Param(UniqFlag::NonUniq, local_type);
        self.uniq_flag_for_type_value(&type_value, tree, local_types)
    }

    /// The sharing of the type that a type value stands for (see `spec_flags`).
    pub fn shared_flag_for_type_value(
        &self,
        type_value: &TypeValue,
        tree: &Tree,
        local_types: &LocalTypes,
    ) -> (r: FrontendInternalResult<SharedFlag>)
        requires
            local_types.wf(),
        ensures
            match r {
                Ok(f) => spec_flags(tree@, local_types@, type_value@, None, Self::fuel()) matches Some(
                    (_, g),
                ) && g == f,
                Err(e) => spec_flags(tree@, local_types@, type_value@, None, Self::fuel()) is None && e.0@ == spec_flags_error(tree@, local_types@, type_value@, None, Self::fuel()),
            },
    {
        self.shared_flag_for_type_value2(type_value, None, tree, local_types)
    }

    /// The sharing of a local type (see `spec_flags`).
    pub fn shared_flag(&self, local_type: LocalType, tree: &Tree, local_types: &LocalTypes) -> (r:
        FrontendInternalResult<SharedFlag>)
        requires
            local_types.wf(),
        ensures
            match r {
                Ok(f) => spec_flags(
                    tree@,
                    local_types@,
                    STypeValue::Param(UniqFlag::NonUniq, local_type),
                    None,
                    Self::fuel(),
                ) matches Some((_, g)) && g == f,
                Err(e) => spec_flags(
                    tree@,
                    local_types@,
                    STypeValue::Param(UniqFlag::NonUniq, local_type),
                    None,
                    Self::fuel(),
                ) is None && e.0@ == spec_flags_error(
                    tree@,
                    local_types@,
                    STypeValue::Param(UniqFlag::NonUniq, local_type),
                    None,
                    Self::fuel(),
                ),
            },
    {
        let type_value = TypeValue::Param(UniqFlag::NonUniq, local_type);
        self.shared_flag_for_type_value(&type_value, tree, local_types)
    }

    /// The uniqueness that a type value has by itself (see `spec_real_uniq`).
    pub fn real_uniq_flag_for_type_value(&self, type_value: &TypeValue, local_types: &LocalTypes) -> (r:
        FrontendInternalResult<UniqFlag>)
        requires
            local_types.wf(),
        ensures
            match r {
                Ok(u) => spec_real_uniq(local_types@, type_value@) == Some(u),
                Err(_) => spec_real_uniq(local_types@, type_value@) is None,
            },
    {
        match local_types.type_entry_for_type_value(type_value) {
            Some(LocalTypeEntry::Param(_, u, _, _)) => Ok(u),
            Some(LocalTypeEntry::Type(t)) => match t {
                TypeValue::Param(_, _) => Err(
                    internal_error("real_uniq_flag_for_type_value: type parameter in local type entry"),
                ),
                TypeValue::Type(u, _, _) => Ok(u),
            },
            None => Err(internal_error("real_uniq_flag_for_type_value: no local type entry")),
        }
    }

    /// The uniqueness that a local type has by itself (see `spec_real_uniq`).
    pub fn real_uniq_flag(&self, local_type: LocalType, local_types: &LocalTypes) -> (r:
        FrontendInternalResult<UniqFlag>)
        requires
            local_types.wf(),
        ensures
            match r {
                Ok(u) => spec_real_uniq(local_types@, STypeValue::Param(UniqFlag::NonUniq, local_type))
                    == Some(u),
                Err(_) => spec_real_uniq(
                    local_types@,
                    STypeValue::Param(UniqFlag::NonUniq, local_type),
                ) is None,
            },
    {
        let type_value = TypeValue::Param(UniqFlag::NonUniq, local_type);
        self.real_uniq_flag_for_type_value(&type_value, local_types)
    }

    /// Makes the type that a type value stands for shared where it can be (see
    /// `spec_set_shared`): answers whether it is shared afterwards.
    pub fn set_shared_for_type_value(
        &self,
        type_value: &TypeValue,
        tree: &Tree,
        local_types: &mut LocalTypes,
    ) -> (r: FrontendInternalResult<bool>)
        requires
            old(local_types).wf(),
        ensures
            keeps_classes(old(local_types)@, final(local_types)@),
            keeps_eq_flags(old(local_types)@, final(local_types)@),
            final(local_types).wf(),
            final(local_types)@.len() == old(local_types)@.len(),
            match r {
                Ok(b) => spec_set_shared(tree@, old(local_types)@, type_value@, Self::fuel()) matches Some(
                    (c, _),
                ) && b == c,
                Err(_) => spec_set_shared(tree@, old(local_types)@, type_value@, Self::fuel()) is None,
            },
            final(local_types)@ == after_set_shared(
                old(local_types)@,
                spec_set_shared(tree@, old(local_types)@, type_value@, Self::fuel()),
            ),
    {
        proof {
            local_types.lemma_wf();
            local_types@.lemma_resolve_param(type_value@, local_types@.len());
        }
        let entry = match local_types.type_entry_for_type_value(type_value) {
            Some(e) => e,
            None => {
                return Err(internal_error("set_shared_for_type_value: no local type entry"));
            },
        };
        match entry {
            LocalTypeEntry::Param(d, u, e, l) => {
                if u == UniqFlag::Uniq {
                    return Ok(false);
                }
                if e.has_trait_name(&TraitName::Shared) {
                    return Ok(true);
                }
                if d == crate::types::DefinedFlag::Defined {
                    return Ok(false);
                }
                if !e.has_trait_name(&TraitName::Fun) {
                    let f = self.args_shared_flag(&e.type_values, tree, local_types, TYPE_DEPTH_LIMIT)?;
                    if f == SharedFlag::NonShared {
                        return Ok(false);
                    }
                }
                let mut names = crate::entries::duplicate_trait_names(&e.trait_names);
                insert_trait_name(&mut names, TraitName::Shared);
                let ok = local_types.set_trait_names(l, names);
                proof {
                    assert(ok);
                    assert(local_types@.entries =~= old(local_types)@.entries.update(
                        l.idx as int,
                        with_shared(old(local_types)@.entries[l.idx as int]),
                    ));
                }
                Ok(true)
            },
            LocalTypeEntry::Type(t) => {
                let f = self.shared_flag_for_type_value2(&t, None, tree, local_types)?;
                Ok(f == SharedFlag::Shared)
            },
        }
    }

    /// Makes a local type shared where it can be (see `spec_set_shared`).
    pub fn set_shared(&self, local_type: LocalType, tree: &Tree, local_types: &mut LocalTypes) -> (r:
        FrontendInternalResult<bool>)
        requires
            old(local_types).wf(),
        ensures
            keeps_classes(old(local_types)@, final(local_types)@),
            keeps_eq_flags(old(local_types)@, final(local_types)@),
            final(local_types).wf(),
            final(local_types)@.len() == old(local_types)@.len(),
            match r {
                Ok(b) => spec_set_shared(
                    tree@,
                    old(local_types)@,
                    STypeValue::Param(UniqFlag::NonUniq, local_type),
                    Self::fuel(),
                ) matches Some((c, _)) && b == c,
                Err(_) => spec_set_shared(
                    tree@,
                    old(local_types)@,
                    STypeValue::Param(UniqFlag::NonUniq, local_type),
                    Self::fuel(),
                ) is None,
            },
            final(local_types)@ == after_set_shared(
                old(local_types)@,
                spec_set_shared(
                    tree@,
                    old(local_types)@,
                    STypeValue::Param(UniqFlag::NonUniq, local_type),
                    Self::fuel(),
                ),
            ),
    {
        let type_value = TypeValue::Param(UniqFlag::NonUniq, local_type);
        self.set_shared_for_type_value(&type_value, tree, local_types)
    }
}

/// Whether a type parameter has as many type values as a type it meets has arguments, or
/// carries none to be checked (see `is_bare`).
pub open spec fn arity_fits(p: SParamEntry, n: nat) -> bool {
    is_bare(p) || p.type_values.len() == n
}

/// Whether two entries can match at all, by their heads and arities: two undefined type
/// parameters, or an undefined and a defined one, of the same uniqueness, whose type values
/// are as many (where both are to be checked); a defined type parameter with itself; an
/// undefined type parameter and a type that it may stand for (a unique parameter only for a
/// unique type) with as many arguments as it has type values; two types of one name and arity.
pub open spec fn heads_can_match(e1: SEntry, e2: SEntry) -> bool {
    match (e1, e2) {
        (
            SEntry::Param(DefinedFlag::Undefined, u1, p1, l1),
            SEntry::Param(DefinedFlag::Undefined, u2, p2, l2),
        ) => u1 == u2 && (l1 == l2 || is_bare(p1) || is_bare(p2) || p1.type_values.len()
            == p2.type_values.len()),
        (SEntry::Param(DefinedFlag::Undefined, u1, p1, _), SEntry::Param(DefinedFlag::Defined, u2, p2, _)) =>
            u1 == u2 && arity_fits(p1, p2.type_values.len()),
        (SEntry::Param(DefinedFlag::Defined, u1, p1, _), SEntry::Param(DefinedFlag::Undefined, u2, p2, _)) =>
            u1 == u2 && arity_fits(p2, p1.type_values.len()),
        (SEntry::Param(DefinedFlag::Defined, u1, _, l1), SEntry::Param(DefinedFlag::Defined, u2, _, l2)) =>
            u1 == u2 && l1 == l2,
        (SEntry::Param(DefinedFlag::Undefined, u1, p1, _), SEntry::Type(STypeValue::Type(u2, _, a2))) =>
            !(u1 == UniqFlag::Uniq && u2 == UniqFlag::NonUniq) && arity_fits(p1, a2.len()),
        (SEntry::Type(STypeValue::Type(u1, _, a1)), SEntry::Param(DefinedFlag::Undefined, u2, p2, _)) =>
            !(u2 == UniqFlag::Uniq && u1 == UniqFlag::NonUniq) && arity_fits(p2, a1.len()),
        (SEntry::Type(STypeValue::Type(_, n1, a1)), SEntry::Type(STypeValue::Type(_, n2, a2))) => n1
            == n2 && a1.len() == a2.len(),
        _ => false,
    }
}

/// Whether a type satisfies a trait that a type parameter requires: `shared` when the type is
/// shared (as `shared` says), a function trait when it is a function type, a named trait when
/// the trait has an implementation for the type's name or, for an array of known length, for
/// arrays of any length. `None` for an internal error: the type has no name, or the trait or
/// its implementations are unknown.
pub open spec fn trait_satisfied(tree: STree, t: STraitName, tv: STypeValue, shared: SharedFlag) -> Option<
    bool,
> {
    match stv_type_name(tv) {
        None => None,
        Some(tn) => match t {
            STraitName::Shared => Some(shared != SharedFlag::NonShared),
            STraitName::Fun => Some(tv matches STypeValue::Type(_, STypeValueName::Fun, _)),
            STraitName::Name(id) => match find_trait(tree.traits, id) {
                None => None,
                Some(tr) => match tr.impls {
                    None => None,
                    Some(impls) => if has_impl(impls, tn) {
                        Some(true)
                    } else {
                        match tn {
                            STypeName::Array(Some(_)) => Some(has_impl(impls, STypeName::Array(None))),
                            _ => Some(false),
                        }
                    },
                },
            },
        },
    }
}

/// Whether two entries do not match for their heads and arities alone, which matching finds
/// before it looks at anything else: type parameters (not both defined) of different
/// uniqueness, or with different numbers of type values to be checked; two different defined
/// type parameters, or one with different uniqueness; a unique undefined type parameter and a
/// non-unique type, or an undefined type parameter whose type values to be checked are not as
/// many as the type's arguments; two types of different names or arities; a defined type
/// parameter and a type.
pub open spec fn heads_mismatch(e1: SEntry, e2: SEntry) -> bool {
    match (e1, e2) {
        (
            SEntry::Param(DefinedFlag::Undefined, u1, p1, l1),
            SEntry::Param(DefinedFlag::Undefined, u2, p2, l2),
        ) => u1 != u2 || (l1 != l2 && !is_bare(p1) && !is_bare(p2) && p1.type_values.len()
            != p2.type_values.len()),
        (SEntry::Param(DefinedFlag::Undefined, u1, p1, _), SEntry::Param(DefinedFlag::Defined, u2, p2, _)) =>
            u1 != u2 || !arity_fits(p1, p2.type_values.len()),
        (SEntry::Param(DefinedFlag::Defined, u1, p1, _), SEntry::Param(DefinedFlag::Undefined, u2, p2, _)) =>
            u1 != u2 || !arity_fits(p2, p1.type_values.len()),
        (SEntry::Param(DefinedFlag::Defined, u1, _, l1), SEntry::Param(DefinedFlag::Defined, u2, _, l2)) =>
            u1 != u2 || l1 != l2,
        (SEntry::Param(DefinedFlag::Undefined, u1, p1, _), SEntry::Type(STypeValue::Type(u2, _, a2))) => (u1
            == UniqFlag::Uniq && u2 == UniqFlag::NonUniq) || !arity_fits(p1, a2.len()),
        (SEntry::Type(STypeValue::Type(u1, _, a1)), SEntry::Param(DefinedFlag::Undefined, u2, p2, _)) => (u2
            == UniqFlag::Uniq && u1 == UniqFlag::NonUniq) || !arity_fits(p2, a1.len()),
        (SEntry::Type(STypeValue::Type(_, n1, a1)), SEntry::Type(STypeValue::Type(_, n2, a2))) => n1
            != n2 || a1.len() != a2.len(),
        (SEntry::Param(DefinedFlag::Defined, _, _, _), SEntry::Type(_)) => true,
        (SEntry::Type(_), SEntry::Param(DefinedFlag::Defined, _, _, _)) => true,
        _ => false,
    }
}

/// Whether what two type values stand for in a table does not match for its heads alone (see
/// `heads_mismatch`).
pub open spec fn heads_mismatch_in(s: SLocalTypes, tv1: STypeValue, tv2: STypeValue) -> bool {
    match (s.entry_for(tv1), s.entry_for(tv2)) {
        (Some(e1), Some(e2)) => heads_mismatch(e1, e2),
        _ => false,
    }
}

/// The table on which the two sides of a pattern are matched, where `l` (of side `is_var`, a
/// variable or not) becomes unique when the other side `other` is unique by itself: the given
/// table when `other` is not unique, the table where `l` was made unique when it is; `None` when
/// matching does not come to that (an internal error, or `l` is a variable of a shared type).
pub open spec fn pattern_table(
    tree: STree,
    s: SLocalTypes,
    l: LocalType,
    is_var: bool,
    other: LocalType,
) -> Option<SLocalTypes> {
    let made_uniq = if l.idx < s.len() {
        after_set_uniq(s, l.idx as int)
    } else {
        s
    };
    match spec_real_uniq(s, STypeValue::Param(UniqFlag::NonUniq, other)) {
        None => None,
        Some(UniqFlag::NonUniq) => Some(s),
        Some(UniqFlag::Uniq) => if is_var {
            match spec_flags(tree, s, STypeValue::Param(UniqFlag::NonUniq, l), None, TYPE_DEPTH_LIMIT as nat) {
                Some((_, SharedFlag::NonShared)) => Some(made_uniq),
                _ => None,
            }
        } else {
            Some(made_uniq)
        },
    }
}

/// What matching type values `tv1` and `tv2` on table `m` gives `r` and leaves in table `t`, as
/// far as `match_type_values` states it.
pub open spec fn matching_outcome(
    tree: STree,
    m: SLocalTypes,
    t: SLocalTypes,
    tv1: STypeValue,
    tv2: STypeValue,
    r: FrontendInternalResult<TypeMatcherResult>,
) -> bool {
    &&& heads_mismatch_in(m, tv1, tv2) ==> (r matches Ok(TypeMatcherResult::Mismatched(infos))
        && infos@.len() == 0) && t == m
    &&& (m.entry_for(tv1) is None || m.entry_for(tv2) is None) ==> r is Err && t == m
    &&& r matches Ok(TypeMatcherResult::Matched) ==> matched_in(tree, m, t, tv1, tv2)
    &&& r matches Ok(TypeMatcherResult::Matched) ==> type_args_matched(tree, m, t, tv1, tv2)
    &&& r matches Ok(TypeMatcherResult::Mismatched(infos)) ==> (!heads_mismatch_in(m, tv1, tv2)
        ==> reasons_reported_in(tree, m, tv1, tv2, infos@))
    &&& match_owed_in(tree, m, tv1, tv2) ==> owed_match_result(owed_outcome_in(tree, m, tv1, tv2), r, t)
    &&& r matches Ok(TypeMatcherResult::Matched) ==> reasons_reported_in(tree, m, tv1, tv2, Seq::empty())
    &&& ground_reasons_result(tree, m, tv1, tv2, (TYPE_DEPTH_LIMIT - 1) as nat, r)
    &&& public_match_result(spec_match_tvs(tree, m, tv1, tv2, TYPE_DEPTH_LIMIT as nat), r, t)
    &&& match_owed_same_values_in(tree, m, tv1, tv2) ==> (r is Err || ((r matches Ok(TypeMatcherResult::Matched))
        && same_values_table_in(tree, m, tv1, tv2) == Some(t)))
    &&& tv1 == tv2 ==> (r is Err || r matches Ok(TypeMatcherResult::Matched)) && t == m
    &&& ground_entries_in(m, tv1, tv2) ==> ground_match_result(
        ground_outcome_in(tree, m, tv1, tv2, TYPE_DEPTH_LIMIT as nat),
        r,
    ) && t == m
    &&& match_owed_ground_in(tree, m, tv1, tv2, (TYPE_DEPTH_LIMIT - 1) as nat) ==> owed_match_result(
        ground_owed_outcome_in(tree, m, tv1, tv2, (TYPE_DEPTH_LIMIT - 1) as nat),
        r,
        t,
    )
}

/// Whether `ts` are the tables before, between and after matching the type values of `a` and
/// `b` pairwise, in order, each pair successfully (see `matched_in`).
pub open spec fn args_chain(tree: STree, ts: Seq<SLocalTypes>, a: Seq<STypeValue>, b: Seq<STypeValue>) -> bool {
    &&& a.len() == b.len()
    &&& ts.len() == a.len() + 1
    &&& forall|i: int| 0 <= i < a.len() ==> #[trigger] matched_in(tree, ts[i], ts[i + 1], a[i], b[i])
}

/// Whether matching the type values of `a` and `b` pairwise, in order, led from table `s0` to
/// table `s1` with each pair matched.
pub open spec fn args_matched(
    tree: STree,
    s0: SLocalTypes,
    s1: SLocalTypes,
    a: Seq<STypeValue>,
    b: Seq<STypeValue>,
) -> bool {
    exists|ts: Seq<SLocalTypes>| #[trigger] args_chain(tree, ts, a, b) && ts[0] == s0 && ts.last() == s1
}

/// Whether, where two entries are types, their arguments matched pairwise from table `s0` to
/// table `s1` (see `args_matched`).
pub open spec fn entries_args_matched(tree: STree, s0: SLocalTypes, s1: SLocalTypes, e1: SEntry, e2: SEntry) -> bool {
    match (e1, e2) {
        (SEntry::Type(STypeValue::Type(_, _, a1)), SEntry::Type(STypeValue::Type(_, _, a2))) =>
            args_matched(tree, s0, s1, a1, a2),
        _ => true,
    }
}

/// Whether, where two type values stood for types in table `s0`, their arguments matched
/// pairwise, leading to table `s1` (see `args_matched`).
pub open spec fn type_args_matched(
    tree: STree,
    s0: SLocalTypes,
    s1: SLocalTypes,
    tv1: STypeValue,
    tv2: STypeValue,
) -> bool {
    match (s0.entry_for(tv1), s0.entry_for(tv2)) {
        (Some(e1), Some(e2)) => entries_args_matched(tree, s0, s1, e1, e2),
        _ => true,
    }
}

/// The smaller of two numbers of type parameters, where either may be missing.
pub open spec fn min_number(a: Option<usize>, b: Option<usize>) -> Option<usize> {
    match (a, b) {
        (Some(x), Some(y)) => Some(if x < y { x } else { y }),
        (Some(x), None) => Some(x),
        (None, Some(y)) => Some(y),
        (None, None) => None,
    }
}

/// The entry that two undefined type parameters share once matching has joined them: the
/// traits and the closures of both, the longer list of type values (the second's where they are
/// as long), the smaller number, and no written name.
pub open spec fn merged_param_entry(p1: SParamEntry, p2: SParamEntry) -> SParamEntry {
    SParamEntry {
        trait_names: trait_names_union(p1.trait_names, p2.trait_names),
        type_values: if p1.type_values.len() > p2.type_values.len() {
            p1.type_values
        } else {
            p2.type_values
        },
        closure_local_types: local_types_union(p1.closure_local_types, p2.closure_local_types),
        number: min_number(p1.number, p2.number),
        ident: None,
    }
}

/// Whether the defined type parameter entry `p2` has every trait that `p1` requires and is
/// captured by every closure that captures `p1`.
pub open spec fn defined_covers(p1: SParamEntry, p2: SParamEntry) -> bool {
    &&& forall|i: int| 0 <= i < p1.trait_names.len() ==> p2.trait_names.contains(#[trigger] p1.trait_names[i])
    &&& forall|i: int|
        0 <= i < p1.closure_local_types.len() ==> p2.closure_local_types.contains(
            #[trigger] p1.closure_local_types[i],
        )
}

/// What a successful match shows of the traits of the type parameters it matched: an undefined
/// type parameter matched with a type has each of its traits but `shared` satisfied by the type
/// (see `trait_satisfied`); one matched with a defined type parameter requires no trait, and is
/// captured by no closure, that the defined one lacks (see `defined_covers`).
pub open spec fn traits_hold(tree: STree, e1: SEntry, e2: SEntry) -> bool {
    match (e1, e2) {
        (SEntry::Param(DefinedFlag::Undefined, _, p, _), SEntry::Type(t)) => forall|i: int|
            0 <= i < p.trait_names.len() && p.trait_names[i] != STraitName::Shared ==> (
            #[trigger] trait_satisfied(tree, p.trait_names[i], t, SharedFlag::Shared)) == Some(true),
        (SEntry::Type(t), SEntry::Param(DefinedFlag::Undefined, _, p, _)) => forall|i: int|
            0 <= i < p.trait_names.len() && p.trait_names[i] != STraitName::Shared ==> (
            #[trigger] trait_satisfied(tree, p.trait_names[i], t, SharedFlag::Shared)) == Some(true),
        (SEntry::Param(DefinedFlag::Undefined, _, p1, _), SEntry::Param(DefinedFlag::Defined, _, p2, _)) =>
            defined_covers(p1, p2),
        (SEntry::Param(DefinedFlag::Defined, _, p2, _), SEntry::Param(DefinedFlag::Undefined, _, p1, _)) =>
            defined_covers(p1, p2),
        _ => true,
    }
}

/// Which classes matching two entries made in table `s` when it succeeded: two type
/// parameters that were not both defined are in one class and in one equation class; an
/// undefined type parameter matched with a type is bound to that type; a defined type
/// parameter matched only itself.
pub open spec fn joined_by_match(s: SLocalTypes, e1: SEntry, e2: SEntry) -> bool {
    match (e1, e2) {
        (SEntry::Param(DefinedFlag::Undefined, _, _, l1), SEntry::Param(_, _, _, l2)) => s.roots[l1.idx as int]
            == s.roots[l2.idx as int] && s.eq_roots[l1.idx as int] == s.eq_roots[l2.idx as int],
        (SEntry::Param(DefinedFlag::Defined, _, _, l1), SEntry::Param(DefinedFlag::Undefined, _, _, l2)) =>
            s.roots[l1.idx as int] == s.roots[l2.idx as int] && s.eq_roots[l1.idx as int] == s.eq_roots[l2.idx as int],
        (SEntry::Param(DefinedFlag::Defined, _, _, l1), SEntry::Param(DefinedFlag::Defined, _, _, l2)) =>
            l1 == l2,
        (SEntry::Param(DefinedFlag::Undefined, _, _, l1), SEntry::Type(t)) => l1.idx < s.len() ==> s.entry_of(
            l1.idx as int,
        ) == SEntry::Type(t),
        (SEntry::Type(t), SEntry::Param(DefinedFlag::Undefined, _, _, l2)) => l2.idx < s.len() ==> s.entry_of(
            l2.idx as int,
        ) == SEntry::Type(t),
        _ => true,
    }
}

/// The entry that the class of two type parameters, not both defined, has in table `s` after
/// they matched: the merged entry of both where both were undefined (see `merged_param_entry`),
/// the defined one's entry otherwise.
pub open spec fn entry_after_match(s: SLocalTypes, e1: SEntry, e2: SEntry) -> bool {
    match (e1, e2) {
        (
            SEntry::Param(DefinedFlag::Undefined, _, p1, l1),
            SEntry::Param(DefinedFlag::Undefined, _, p2, l2),
        ) => l1 != l2 ==> (s.entry_of(l1.idx as int) matches SEntry::Param(DefinedFlag::Undefined, _, p, _)
            && p == merged_param_entry(p1, p2)),
        (SEntry::Param(DefinedFlag::Undefined, _, _, l1), SEntry::Param(DefinedFlag::Defined, _, p2, _)) =>
            s.entry_of(l1.idx as int) matches SEntry::Param(DefinedFlag::Defined, _, p, _) && p == p2,
        (SEntry::Param(DefinedFlag::Defined, _, p1, _), SEntry::Param(DefinedFlag::Undefined, _, _, l2)) =>
            s.entry_of(l2.idx as int) matches SEntry::Param(DefinedFlag::Defined, _, p, _) && p == p1,
        _ => true,
    }
}

/// Whether, in table `s1`, the equation class of local type `l1` stands in a non-unique lambda
/// and in an equation of the defined type's type parameters exactly when, in table `s0`, the
/// equation class of `l1` or that of `l2` did.
pub open spec fn class_flags_merged(s0: SLocalTypes, s1: SLocalTypes, l1: LocalType, l2: LocalType) -> bool {
    &&& s1.eq_entry_of(l1.idx as int).is_in_non_uniq_lambda == (s0.eq_entry_of(
        l1.idx as int,
    ).is_in_non_uniq_lambda || s0.eq_entry_of(l2.idx as int).is_in_non_uniq_lambda)
    &&& s1.eq_entry_of(l1.idx as int).is_defined == (s0.eq_entry_of(l1.idx as int).is_defined
        || s0.eq_entry_of(l2.idx as int).is_defined)
}

/// The flags that the joined class of two type parameters has in table `s1` after they
/// matched on table `s0`, where matching their type values changed no equation class (no two
/// carried type values to match against each other, or those were the same): those of either
/// (see `class_flags_merged`).
pub open spec fn flags_after_match(s0: SLocalTypes, s1: SLocalTypes, e1: SEntry, e2: SEntry) -> bool {
    match (e1, e2) {
        (
            SEntry::Param(DefinedFlag::Undefined, _, p1, l1),
            SEntry::Param(DefinedFlag::Undefined, _, p2, l2),
        ) => is_bare(p1) || is_bare(p2) || p1.type_values == p2.type_values ==> class_flags_merged(s0, s1, l1, l2),
        (SEntry::Param(DefinedFlag::Undefined, _, p1, l1), SEntry::Param(DefinedFlag::Defined, _, p2, l2)) =>
            is_bare(p1) || p1.type_values == p2.type_values ==> class_flags_merged(s0, s1, l1, l2),
        (SEntry::Param(DefinedFlag::Defined, _, p2, l2), SEntry::Param(DefinedFlag::Undefined, _, p1, l1)) =>
            is_bare(p1) || p1.type_values == p2.type_values ==> class_flags_merged(s0, s1, l1, l2),
        _ => true,
    }
}

/// What a successful match of an undefined type parameter (entry `p1`, local type `l1`) with the
/// type `t` on table `s`, giving the sharing flag `g`, shows: `g` is `shared` where `p1`
/// requires it; where `p1` carries nothing to check against type values (see `is_bare`), `g` is
/// the sharing of `t`; and `l1` stood in no equation of the defined type's type parameters.
pub open spec fn bound_flag_facts(tree: STree, s: SLocalTypes, p1: SParamEntry, l1: LocalType, t: STypeValue, g: SharedFlag) -> bool {
    &&& has_trait(p1, STraitName::Shared) ==> g == SharedFlag::Shared
    &&& is_bare(p1) ==> (spec_flags(tree, s, t, None, TypeMatcher::fuel()) matches Some((_, f)) && f == g)
    &&& !(l1.idx < s.len() && s.eq_entry_of(l1.idx as int).is_defined)
}

/// Whether types `t1` and `t2` both have the sharing `f` on table `s` where their type arguments
/// share as `g` says.
pub open spec fn types_share_alike_with(tree: STree, s: SLocalTypes, t1: STypeValue, t2: STypeValue, g: SharedFlag, f: SharedFlag) -> bool {
    &&& spec_flags(tree, s, t1, Some(g), TypeMatcher::fuel()) matches Some((_, f1)) && f1 == f
    &&& spec_flags(tree, s, t2, Some(g), TypeMatcher::fuel()) matches Some((_, f2)) && f2 == f
}

/// What a successful match of two types on table `s`, giving the sharing flag `f`, shows: for
/// some sharing of their type arguments, both types share as `f` says.
pub open spec fn types_share_alike(tree: STree, s: SLocalTypes, t1: STypeValue, t2: STypeValue, f: SharedFlag) -> bool {
    types_share_alike_with(tree, s, t1, t2, SharedFlag::Shared, f) || types_share_alike_with(
        tree,
        s,
        t1,
        t2,
        SharedFlag::NonShared,
        f,
    )
}

/// The facts of `bound_flag_facts` where one of two entries is an undefined type parameter and
/// the other a type.
pub open spec fn match_flag_facts(tree: STree, s: SLocalTypes, e1: SEntry, e2: SEntry, g: SharedFlag) -> bool {
    match (e1, e2) {
        (SEntry::Param(DefinedFlag::Undefined, _, p1, l1), SEntry::Type(t)) => bound_flag_facts(tree, s, p1, l1, t, g),
        (SEntry::Type(t), SEntry::Param(DefinedFlag::Undefined, _, p1, l1)) => bound_flag_facts(tree, s, p1, l1, t, g),
        _ => true,
    }
}

/// Whether a type value is a type all the way down, with no type parameter in it.
pub open spec fn ground_type(tv: STypeValue) -> bool
    decreases tv,
{
    match tv {
        STypeValue::Type(_, _, args) => ground_list(args),
        STypeValue::Param(_, _) => false,
    }
}

/// Whether every type value of a list is a type all the way down.
pub open spec fn ground_list(vs: Seq<STypeValue>) -> bool
    decreases vs,
{
    if vs.len() == 0 {
        true
    } else {
        ground_list(vs.drop_last()) && ground_type(vs.last())
    }
}

/// A list is ground in the recursive sense exactly when each of its type values is.
proof fn lemma_ground_list(vs: Seq<STypeValue>)
    ensures
        ground_list(vs) <==> all_ground(vs),
    decreases vs.len(),
{
    if vs.len() > 0 {
        lemma_ground_list(vs.drop_last());
        if all_ground(vs) {
            assert forall|i: int| 0 <= i < vs.drop_last().len() implies #[trigger] ground_type(vs.drop_last()[i]) by {
                assert(vs.drop_last()[i] == vs[i]);
            }
            assert(ground_type(vs[vs.len() - 1]));
        }
        if ground_list(vs) {
            assert forall|i: int| 0 <= i < vs.len() implies #[trigger] ground_type(vs[i]) by {
                if i < vs.len() - 1 {
                    assert(vs.drop_last()[i] == vs[i]);
                }
            }
        }
    }
}

/// The outcome of matching two type values, with `fuel` levels of nesting left: an internal
/// error (`None`) where no fuel is left, else that of `ground_types_outcome` one level down.
pub open spec fn ground_match_outcome(tree: STree, s: SLocalTypes, tv1: STypeValue, tv2: STypeValue, fuel: nat) -> Option<Option<SharedFlag>>
    decreases fuel, 0nat, 0nat,
{
    if fuel == 0 {
        None
    } else {
        ground_types_outcome(tree, s, tv1, tv2, (fuel - 1) as nat)
    }
}

/// The outcome of matching the first `n` pairs of two lists of type arguments: whether all
/// matched so far and whether all that matched are shared, or an internal error (`None`).
pub open spec fn ground_args_outcome(
    tree: STree,
    s: SLocalTypes,
    a1: Seq<STypeValue>,
    a2: Seq<STypeValue>,
    fuel: nat,
    n: nat,
) -> Option<(bool, SharedFlag)>
    decreases fuel, 1nat, n,
{
    if n == 0 {
        Some((true, SharedFlag::Shared))
    } else {
        match ground_args_outcome(tree, s, a1, a2, fuel, (n - 1) as nat) {
            None => None,
            Some((ok, f)) => match ground_match_outcome(tree, s, a1[n - 1], a2[n - 1], fuel) {
                None => None,
                Some(None) => Some((false, f)),
                Some(Some(g)) => Some((ok, if g == SharedFlag::NonShared { SharedFlag::NonShared } else { f })),
            },
        }
    }
}

/// The outcome of matching two types: no match where their names or numbers of arguments
/// differ or an argument does not match; else the sharing of both, computed with the sharing of
/// the arguments, where they share alike, and no match where they do not. `None` stands for an
/// internal error, as where the nesting is deeper than `fuel`.
pub open spec fn ground_types_outcome(tree: STree, s: SLocalTypes, tv1: STypeValue, tv2: STypeValue, fuel: nat) -> Option<Option<SharedFlag>>
    decreases fuel, 2nat, 0nat,
{
    match (tv1, tv2) {
        (STypeValue::Type(_, n1, a1), STypeValue::Type(_, n2, a2)) => if a1.len() != a2.len() || n1 != n2 {
            Some(None)
        } else {
            match ground_args_outcome(tree, s, a1, a2, fuel, a1.len()) {
                None => None,
                Some((ok, f)) => if !ok {
                    Some(None)
                } else {
                    match (
                        spec_flags(tree, s, tv1, Some(f), TypeMatcher::fuel()),
                        spec_flags(tree, s, tv2, Some(f), TypeMatcher::fuel()),
                    ) {
                        (Some((_, f1)), Some((_, f2))) => Some(if f1 == f2 { Some(f1) } else { None }),
                        _ => None,
                    }
                },
            }
        },
        _ => None,
    }
}

/// Whether two entries are types all the way down.
pub open spec fn ground_entries(e1: SEntry, e2: SEntry) -> bool {
    match (e1, e2) {
        (SEntry::Type(t1), SEntry::Type(t2)) => ground_type(t1) && ground_type(t2),
        _ => false,
    }
}

/// The outcome of matching two entries that are types (see `ground_types_outcome`).
pub open spec fn ground_entries_outcome(tree: STree, s: SLocalTypes, e1: SEntry, e2: SEntry, fuel: nat) -> Option<Option<SharedFlag>> {
    match (e1, e2) {
        (SEntry::Type(t1), SEntry::Type(t2)) => ground_types_outcome(tree, s, t1, t2, fuel),
        _ => None,
    }
}

/// Whether two type values stand, in table `s`, for types all the way down: types themselves,
/// or local types bound to such types.
pub open spec fn ground_entries_in(s: SLocalTypes, tv1: STypeValue, tv2: STypeValue) -> bool {
    match (s.entry_for(tv1), s.entry_for(tv2)) {
        (Some(e1), Some(e2)) => ground_entries(e1, e2),
        _ => false,
    }
}

/// The outcome of matching two type values that stand for types all the way down, with `fuel`
/// levels of nesting left (see `ground_types_outcome`).
pub open spec fn ground_outcome_in(tree: STree, s: SLocalTypes, tv1: STypeValue, tv2: STypeValue, fuel: nat) -> Option<Option<SharedFlag>> {
    if fuel == 0 {
        None
    } else {
        match (s.entry_for(tv1), s.entry_for(tv2)) {
            (Some(e1), Some(e2)) => ground_entries_outcome(tree, s, e1, e2, (fuel - 1) as nat),
            _ => None,
        }
    }
}

/// Whether every type value of a list is a type all the way down.
pub open spec fn all_ground(vs: Seq<STypeValue>) -> bool {
    forall|i: int| 0 <= i < vs.len() ==> #[trigger] ground_type(vs[i])
}

/// What the outcome of matching two lists of type arguments says of the result `r`.
pub open spec fn ground_args_result(outcome: Option<(bool, SharedFlag)>, r: FrontendInternalResult<(bool, SharedFlag)>) -> bool {
    match outcome {
        Some(p) => r matches Ok(q) && q == p,
        None => r is Err,
    }
}

/// An internal error while matching a prefix of two lists of type arguments stays one for every
/// longer prefix.
proof fn lemma_ground_args_none(
    tree: STree,
    s: SLocalTypes,
    a1: Seq<STypeValue>,
    a2: Seq<STypeValue>,
    fuel: nat,
    n: nat,
    m: nat,
)
    requires
        n <= m,
        ground_args_outcome(tree, s, a1, a2, fuel, n) is None,
    ensures
        ground_args_outcome(tree, s, a1, a2, fuel, m) is None,
    decreases m - n,
{
    if n < m {
        assert(ground_args_outcome(tree, s, a1, a2, fuel, (n + 1) as nat) is None);
        lemma_ground_args_none(tree, s, a1, a2, fuel, (n + 1) as nat, m);
    }
}

/// What a match outcome says of the result `r`: that result, or an internal error where the
/// outcome is `None`.
pub open spec fn ground_result(outcome: Option<Option<SharedFlag>>, r: FrontendInternalResult<Option<SharedFlag>>) -> bool {
    match outcome {
        Some(Some(f)) => r matches Ok(Some(g)) && g == f,
        Some(None) => r matches Ok(None),
        None => r is Err,
    }
}

/// What a match outcome says of the public result `r`: `Matched` where it is a sharing flag,
/// `Mismatched` with no reasons where it is no match, an internal error where it is `None`.
pub open spec fn ground_match_result(outcome: Option<Option<SharedFlag>>, r: FrontendInternalResult<TypeMatcherResult>) -> bool {
    match outcome {
        Some(Some(_)) => r matches Ok(TypeMatcherResult::Matched),
        Some(None) => r matches Ok(TypeMatcherResult::Mismatched(infos)) && infos@.len() == 0,
        None => r is Err,
    }
}

/// The facts about the sharing flag `g` of a successful match of two types, which leaves table
/// `s1` (see `types_share_alike`).
pub open spec fn types_flag_facts(tree: STree, s1: SLocalTypes, e1: SEntry, e2: SEntry, g: SharedFlag) -> bool {
    match (e1, e2) {
        (SEntry::Type(t1), SEntry::Type(t2)) => types_share_alike(tree, s1, t1, t2, g),
        _ => true,
    }
}

/// What matching two entries did to table `s` when it succeeded (see `joined_by_match` and
/// `entry_after_match`).
pub open spec fn unified_by_match(s: SLocalTypes, e1: SEntry, e2: SEntry) -> bool {
    joined_by_match(s, e1, e2) && entry_after_match(s, e1, e2)
}

/// What a successful match of two type values shows, whatever the order of the two: what they
/// stood for in table `s0` could match by its heads (see `heads_can_match`) and by its traits
/// (see `traits_hold`), and matching made the classes in table `s1` that `joined_by_match`
/// says.
pub open spec fn matched_shape(
    tree: STree,
    s0: SLocalTypes,
    s1: SLocalTypes,
    tv1: STypeValue,
    tv2: STypeValue,
) -> bool {
    match (s0.entry_for(tv1), s0.entry_for(tv2)) {
        (Some(e1), Some(e2)) => heads_can_match(e1, e2) && joined_by_match(s1, e1, e2) && traits_hold(
            tree,
            e1,
            e2,
        ),
        _ => false,
    }
}

/// Whether two type values matched, from table `s0` to table `s1`: as `matched_shape` says,
/// and with the entry and the flags that `entry_after_match` and `flags_after_match` say for a
/// class of type parameters.
pub open spec fn matched_in(
    tree: STree,
    s0: SLocalTypes,
    s1: SLocalTypes,
    tv1: STypeValue,
    tv2: STypeValue,
) -> bool {
    matched_shape(tree, s0, s1, tv1, tv2) && match (s0.entry_for(tv1), s0.entry_for(tv2)) {
        (Some(e1), Some(e2)) => entry_after_match(s1, e1, e2) && flags_after_match(s0, s1, e1, e2),
        _ => false,
    }
}

/// `after` holds `before` as a prefix: mismatch reasons are only ever added.
pub open spec fn extends(before: Seq<MismatchedTypeInfo>, after: Seq<MismatchedTypeInfo>) -> bool {
    after.len() >= before.len() && forall|i: int| 0 <= i < before.len() ==> #[trigger] after[i] == before[i]
}

/// Extending is transitive.
pub proof fn lemma_extends_trans(
    a: Seq<MismatchedTypeInfo>,
    b: Seq<MismatchedTypeInfo>,
    c: Seq<MismatchedTypeInfo>,
)
    requires
        extends(a, b),
        extends(b, c),
    ensures
        extends(a, c),
{
}

/// Pushing a reason onto an extension keeps it an extension.
pub proof fn lemma_extends_push(a: Seq<MismatchedTypeInfo>, b: Seq<MismatchedTypeInfo>, x: MismatchedTypeInfo)
    requires
        extends(a, b),
    ensures
        extends(a, b.push(x)),
{
    assert forall|i: int| 0 <= i < a.len() implies #[trigger] b.push(x)[i] == a[i] by {
        assert(b[i] == a[i]);
    }
}

/// Every sequence of reasons extends itself.
pub proof fn lemma_extends_refl(a: Seq<MismatchedTypeInfo>)
    ensures
        extends(a, a),
{
}

/// A value that a sequence holds stays in any sequence that extends it.
pub proof fn lemma_extends_contains(a: Seq<MismatchedTypeInfo>, b: Seq<MismatchedTypeInfo>)
    requires
        extends(a, b),
    ensures
        forall|y: MismatchedTypeInfo| a.contains(y) ==> #[trigger] b.contains(y),
{
    assert forall|y: MismatchedTypeInfo| a.contains(y) implies #[trigger] b.contains(y) by {
        let k = choose|k: int| 0 <= k < a.len() && a[k] == y;
        assert(b[k] == y);
    }
}

/// Whether `info` says that the defined type parameter `l2` lacks trait `t`, which the type
/// parameter `l1` requires.
pub open spec fn param_info(info: MismatchedTypeInfo, l2: LocalType, t: STraitName, l1: LocalType) -> bool {
    info matches MismatchedTypeInfo::Param(a, n, b) && a == l2 && n@ == t && b == l1
}

/// Whether `info` says that the type named `n` does not satisfy trait `t`, which the type
/// parameter `l1` requires.
pub open spec fn type_info(info: MismatchedTypeInfo, n: STypeName, t: STraitName, l1: LocalType) -> bool {
    info matches MismatchedTypeInfo::Type(a, b, c) && a@ == n && b@ == t && c == l1
}

/// Whether `info` says that the defined type parameter `l2` is not captured by closure `c`,
/// which captures the type parameter that was matched with it.
pub open spec fn no_closure_info(info: MismatchedTypeInfo, c: LocalType, l2: LocalType) -> bool {
    info matches MismatchedTypeInfo::NoClosure(a, b) && a == c && b == l2
}

/// Whether `infos` holds a reason of the kind that `param_info` describes.
pub open spec fn reports_param(infos: Seq<MismatchedTypeInfo>, l2: LocalType, t: STraitName, l1: LocalType) -> bool {
    exists|k: int| 0 <= k < infos.len() && #[trigger] param_info(infos[k], l2, t, l1)
}

/// Whether `infos` holds a reason of the kind that `type_info` describes.
pub open spec fn reports_type(infos: Seq<MismatchedTypeInfo>, n: STypeName, t: STraitName, l1: LocalType) -> bool {
    exists|k: int| 0 <= k < infos.len() && #[trigger] type_info(infos[k], n, t, l1)
}

/// Whether `infos` holds a reason of the kind that `no_closure_info` describes.
pub open spec fn reports_no_closure(infos: Seq<MismatchedTypeInfo>, c: LocalType, l2: LocalType) -> bool {
    exists|k: int| 0 <= k < infos.len() && #[trigger] no_closure_info(infos[k], c, l2)
}

/// The reasons given when the undefined type parameter `l1` (entry `p1`) is matched with the
/// defined one `l2` (entry `p2`): each trait that `p1` requires and `p2` lacks, and each
/// closure that captures `l1` and not `l2`.
pub open spec fn defined_reasons(
    p1: SParamEntry,
    l1: LocalType,
    p2: SParamEntry,
    l2: LocalType,
    infos: Seq<MismatchedTypeInfo>,
) -> bool {
    &&& forall|j: int|
        0 <= j < p1.trait_names.len() && !p2.trait_names.contains(p1.trait_names[j]) ==> reports_param(
            infos,
            l2,
            #[trigger] p1.trait_names[j],
            l1,
        )
    &&& forall|j: int|
        0 <= j < p1.closure_local_types.len() && !p2.closure_local_types.contains(
            p1.closure_local_types[j],
        ) ==> reports_no_closure(infos, #[trigger] p1.closure_local_types[j], l2)
}

/// The reasons given when the undefined type parameter `l1` (entry `p1`) is matched with the
/// type `t`: each trait but `shared` that `p1` requires and `t` does not satisfy.
pub open spec fn type_reasons(
    tree: STree,
    p1: SParamEntry,
    l1: LocalType,
    t: STypeValue,
    infos: Seq<MismatchedTypeInfo>,
) -> bool {
    forall|j: int|
        0 <= j < p1.trait_names.len() && p1.trait_names[j] != STraitName::Shared && trait_satisfied(
            tree,
            p1.trait_names[j],
            t,
            SharedFlag::Shared,
        ) == Some(false) ==> reports_type(infos, stv_type_name(t).unwrap(), #[trigger] p1.trait_names[j], l1)
}

/// Whether local type `l` is, in table `s`, in the equation class of local type `x`.
pub open spec fn in_eq_class(s: SLocalTypes, l: LocalType, x: int) -> bool {
    l.idx < s.len() && 0 <= x < s.len() && s.eq_roots[l.idx as int] == s.eq_roots[x]
}

/// The reason that type parameter `l1` is equal to local type `x`, to which type parameter
/// `l2` must not be equal.
pub open spec fn eq_info(l1: LocalType, x: int, l2: LocalType) -> MismatchedTypeInfo {
    MismatchedTypeInfo::Eq(l1, LocalType { idx: x as usize }, l2)
}

/// The further reasons given when the undefined type parameter `l1`, which carries no type
/// values or traits to check (see `is_bare`), is matched with the defined type parameter `l2`
/// on table `s`: each local type of the defined type's equations that is in the equation class
/// of `l1` and not in that of `l2`.
pub open spec fn bare_defined_reasons(
    s: SLocalTypes,
    l1: LocalType,
    l2: LocalType,
    infos: Seq<MismatchedTypeInfo>,
) -> bool {
    forall|x: int|
        0 <= x < s.orig.len() && in_eq_class(s, l1, x) && !in_eq_class(s, l2, x) ==> #[trigger] infos.contains(
            eq_info(l1, x, l2),
        )
}

/// The reasons given when two different undefined type parameters `l1` (entry `p1`) and `l2`
/// (entry `p2`) are matched on table `s`, where one of them carries type values or traits to
/// check and the other only requires `shared` (see `is_bare`): the first cannot be shared, for
/// it requires no function and not all of its type values share.
pub open spec fn undefined_reasons(
    tree: STree,
    s: SLocalTypes,
    p1: SParamEntry,
    l1: LocalType,
    p2: SParamEntry,
    l2: LocalType,
    infos: Seq<MismatchedTypeInfo>,
) -> bool {
    &&& !is_bare(p1) && is_bare(p2) && has_trait(p2, STraitName::Shared) && !has_trait(p1, STraitName::Shared)
        && !has_trait(p1, STraitName::Fun) && spec_args_flag(tree, s, p1.type_values, TypeMatcher::fuel())
        == Some(SharedFlag::NonShared) ==> infos.contains(MismatchedTypeInfo::SharedParam(l1))
    &&& is_bare(p1) && !is_bare(p2) && has_trait(p1, STraitName::Shared) && !has_trait(p2, STraitName::Shared)
        && !has_trait(p2, STraitName::Fun) && spec_args_flag(tree, s, p2.type_values, TypeMatcher::fuel())
        == Some(SharedFlag::NonShared) ==> infos.contains(MismatchedTypeInfo::SharedParam(l2))
}

/// The further reasons given when the undefined type parameter `l1` (entry `p1`), which carries
/// no type values or traits to check (see `is_bare`), is matched with the type `t` on table
/// `s`: that `t` is not shared where `l1` requires `shared`, and that `t` is not shared where
/// `l1` stands in a non-unique lambda.
pub open spec fn bare_type_reasons(
    tree: STree,
    s: SLocalTypes,
    p1: SParamEntry,
    l1: LocalType,
    t: STypeValue,
    infos: Seq<MismatchedTypeInfo>,
) -> bool {
    let not_shared = spec_flags(tree, s, t, None, TypeMatcher::fuel()) matches Some((_, SharedFlag::NonShared));
    &&& has_trait(p1, STraitName::Shared) && not_shared ==> reports_type(
        infos,
        stv_type_name(t).unwrap(),
        STraitName::Shared,
        l1,
    )
    &&& l1.idx < s.len() && s.eq_entry_of(l1.idx as int).is_in_non_uniq_lambda && not_shared
        ==> infos.contains(MismatchedTypeInfo::InNonUniqLambda)
}

/// The reason given when the undefined type parameter `l1` is matched with a type on table `s`
/// though it stands in an equation of the defined type's type parameters.
pub open spec fn type_eq_reason(s: SLocalTypes, l1: LocalType, infos: Seq<MismatchedTypeInfo>) -> bool {
    l1.idx < s.len() && s.eq_entry_of(l1.idx as int).is_defined ==> infos.contains(
        MismatchedTypeInfo::DefinedTypeParamEq,
    )
}

/// The reasons that matching entries `e1` and `e2` on table `s` gives, in `infos`, for what an
/// undefined type parameter requires and the other side lacks (see `undefined_reasons`,
/// `defined_reasons`, `bare_defined_reasons`, `type_reasons`, `type_eq_reason` and
/// `bare_type_reasons`).
pub open spec fn reasons_reported(
    tree: STree,
    s: SLocalTypes,
    e1: SEntry,
    e2: SEntry,
    infos: Seq<MismatchedTypeInfo>,
) -> bool {
    match (e1, e2) {
        (
            SEntry::Param(DefinedFlag::Undefined, _, p1, l1),
            SEntry::Param(DefinedFlag::Undefined, _, p2, l2),
        ) => l1 != l2 ==> undefined_reasons(tree, s, p1, l1, p2, l2, infos),
        (SEntry::Param(DefinedFlag::Undefined, _, p1, l1), SEntry::Param(DefinedFlag::Defined, _, p2, l2)) =>
            defined_reasons(p1, l1, p2, l2, infos) && (is_bare(p1) || p1.type_values == p2.type_values
                ==> bare_defined_reasons(s, l1, l2, infos)),
        (SEntry::Param(DefinedFlag::Defined, _, p2, l2), SEntry::Param(DefinedFlag::Undefined, _, p1, l1)) =>
            defined_reasons(p1, l1, p2, l2, infos) && (is_bare(p1) || p1.type_values == p2.type_values
                ==> bare_defined_reasons(s, l1, l2, infos)),
        (SEntry::Param(DefinedFlag::Undefined, _, p1, l1), SEntry::Type(t)) => type_reasons(tree, p1, l1, t, infos)
            && type_eq_reason(s, l1, infos) && (is_bare(p1) ==> bare_type_reasons(tree, s, p1, l1, t, infos)),
        (SEntry::Type(t), SEntry::Param(DefinedFlag::Undefined, _, p1, l1)) => type_reasons(tree, p1, l1, t, infos)
            && type_eq_reason(s, l1, infos) && (is_bare(p1) ==> bare_type_reasons(tree, s, p1, l1, t, infos)),
        _ => true,
    }
}

/// The reasons that matching what two type values stand for in table `s` gives (see
/// `reasons_reported`).
pub open spec fn reasons_reported_in(
    tree: STree,
    s: SLocalTypes,
    tv1: STypeValue,
    tv2: STypeValue,
    infos: Seq<MismatchedTypeInfo>,
) -> bool {
    match (s.entry_for(tv1), s.entry_for(tv2)) {
        (Some(e1), Some(e2)) => reasons_reported(tree, s, e1, e2, infos),
        _ => true,
    }
}

/// Whether matching the undefined type parameter `l1` (entry `p1`), which carries nothing to
/// check but possibly `shared` (see `is_bare`) and is captured by no closure, with the type `t`
/// on table `s` can only succeed: `t` is shared where `l1` requires it or stands in a
/// non-unique lambda, and `l1` stands in no equation of the defined type's type parameters.
pub open spec fn bare_type_match_owed(
    tree: STree,
    s: SLocalTypes,
    p1: SParamEntry,
    l1: LocalType,
    t: STypeValue,
) -> bool {
    let not_shared = spec_flags(tree, s, t, None, TypeMatcher::fuel()) matches Some((_, SharedFlag::NonShared));
    &&& is_bare(p1)
    &&& p1.closure_local_types.len() == 0
    &&& !(has_trait(p1, STraitName::Shared) && not_shared)
    &&& !(l1.idx < s.len() && s.eq_entry_of(l1.idx as int).is_in_non_uniq_lambda && not_shared)
    &&& !(l1.idx < s.len() && s.eq_entry_of(l1.idx as int).is_defined)
}

/// Whether matching two different undefined type parameters (entries `p1` and `p2`) of the
/// same uniqueness can only succeed: neither carries anything to check but possibly `shared`
/// (see `is_bare`), and where only one requires `shared`, no closure captures the other.
pub open spec fn undefined_match_owed(p1: SParamEntry, p2: SParamEntry) -> bool {
    &&& is_bare(p1)
    &&& is_bare(p2)
    &&& has_trait(p2, STraitName::Shared) && !has_trait(p1, STraitName::Shared) ==> p1.closure_local_types.len() == 0
    &&& has_trait(p1, STraitName::Shared) && !has_trait(p2, STraitName::Shared) ==> p2.closure_local_types.len() == 0
}

/// Whether matching the undefined type parameter `l1` (entry `p1`) with the defined one `l2`
/// (entry `p2`) of the same uniqueness on table `s` can only succeed: `p1` carries no type
/// values to check (see `is_bare`), requires no trait and is captured by no closure that `p2`
/// lacks (see `defined_covers`), and no local type of the defined type's equations is in the
/// equation class of `l1` and not in that of `l2`.
pub open spec fn defined_match_owed(
    s: SLocalTypes,
    p1: SParamEntry,
    l1: LocalType,
    p2: SParamEntry,
    l2: LocalType,
) -> bool {
    &&& is_bare(p1)
    &&& defined_covers(p1, p2)
    &&& forall|x: int|
        0 <= x < s.orig.len() ==> !(#[trigger] in_eq_class(s, l1, x) && !in_eq_class(s, l2, x))
}

/// The outcome of taking the sharing of type value `tv` on table `s`: the flag and the table,
/// unchanged; `None` for an internal error.
pub open spec fn flag_outcome(tree: STree, s: SLocalTypes, tv: STypeValue) -> Option<(SharedFlag, SLocalTypes)> {
    match spec_flags(tree, s, tv, None, TypeMatcher::fuel()) {
        Some((_, f)) => Some((f, s)),
        None => None,
    }
}

/// The outcome of joining type parameters `l1` and `l2` (the first undefined, of uniqueness `u`)
/// on table `s` into a class with entry `e` and defined flag `d`: both entries are emptied, the
/// classes and the equation classes are joined, the root gets `e`, the type parameters of the
/// equation class get the trait names of `e` (see `spec_set_class_trait_names`), and the flag is
/// the sharing of the root. `None` for an internal error.
pub open spec fn join_outcome(
    tree: STree,
    s: SLocalTypes,
    l1: LocalType,
    l2: LocalType,
    u: UniqFlag,
    e: SParamEntry,
    d: DefinedFlag,
) -> Option<(SharedFlag, SLocalTypes)> {
    let s1 = with_param_entry(
        with_param_entry(s, l1, empty_param_entry(), DefinedFlag::Undefined),
        l2,
        empty_param_entry(),
        DefinedFlag::Undefined,
    );
    let root = LocalType { idx: join_root(s1, l1, l2) as usize };
    let eq_root = LocalType { idx: join_eq_root(s1, l1, l2) as usize };
    let t0 = with_param_entry(joined(s1, l1, l2), root, e, d);
    if l1.idx < s.len() && l2.idx < s.len() {
        match spec_set_class_trait_names(t0, l1, l2, eq_root, e.trait_names) {
            None => None,
            Some(t) => match spec_flags(tree, t, STypeValue::Param(u, root), None, TypeMatcher::fuel()) {
                Some((_, f)) => Some((f, t)),
                None => None,
            },
        }
    } else {
        None
    }
}

/// The outcome of binding the undefined type parameter `l` to the type `t` on table `s`: the
/// sharing of `t` and the table where `l` is bound to `t`; `None` for an internal error.
pub open spec fn bind_outcome(tree: STree, s: SLocalTypes, l: LocalType, t: STypeValue) -> Option<
    (SharedFlag, SLocalTypes),
> {
    match spec_flags(tree, s, t, None, TypeMatcher::fuel()) {
        Some((_, f)) => Some((f, with_type_value(s, l, t))),
        None => None,
    }
}

/// The outcome of a match that can only succeed (see `match_owed`): the sharing flag that it
/// gives and the table that it leaves; `None` where an internal error stops it.
pub open spec fn owed_outcome(tree: STree, s: SLocalTypes, e1: SEntry, e2: SEntry) -> Option<
    (SharedFlag, SLocalTypes),
> {
    match (e1, e2) {
        (
            SEntry::Param(DefinedFlag::Undefined, u1, p1, l1),
            SEntry::Param(DefinedFlag::Undefined, _, p2, l2),
        ) => if l1 == l2 {
            flag_outcome(tree, s, STypeValue::Param(u1, l1))
        } else {
            join_outcome(tree, s, l1, l2, u1, merged_param_entry(p1, p2), DefinedFlag::Undefined)
        },
        (SEntry::Param(DefinedFlag::Undefined, u1, _, l1), SEntry::Param(DefinedFlag::Defined, _, p2, l2)) =>
            join_outcome(tree, s, l1, l2, u1, p2, DefinedFlag::Defined),
        (SEntry::Param(DefinedFlag::Defined, _, p2, l2), SEntry::Param(DefinedFlag::Undefined, u1, _, l1)) =>
            join_outcome(tree, s, l1, l2, u1, p2, DefinedFlag::Defined),
        (SEntry::Param(DefinedFlag::Defined, u1, _, l1), SEntry::Param(DefinedFlag::Defined, _, _, _)) =>
            flag_outcome(tree, s, STypeValue::Param(u1, l1)),
        (SEntry::Param(DefinedFlag::Undefined, _, _, l1), SEntry::Type(t)) => bind_outcome(tree, s, l1, t),
        (SEntry::Type(t), SEntry::Param(DefinedFlag::Undefined, _, _, l1)) => bind_outcome(tree, s, l1, t),
        _ => None,
    }
}

/// The outcome of matching what two type values stand for in table `s` where it can only
/// succeed (see `owed_outcome`).
pub open spec fn owed_outcome_in(tree: STree, s: SLocalTypes, tv1: STypeValue, tv2: STypeValue) -> Option<
    (SharedFlag, SLocalTypes),
> {
    match (s.entry_for(tv1), s.entry_for(tv2)) {
        (Some(e1), Some(e2)) => owed_outcome(tree, s, e1, e2),
        _ => None,
    }
}

/// What the outcome of a match that can only succeed says of the public result `r` and the
/// final table `t`: `Matched` with the table of the outcome, or an internal error where the
/// outcome is `None`.
pub open spec fn owed_match_result(
    outcome: Option<(SharedFlag, SLocalTypes)>,
    r: FrontendInternalResult<TypeMatcherResult>,
    t: SLocalTypes,
) -> bool {
    match outcome {
        Some((_, t2)) => (r matches Ok(TypeMatcherResult::Matched)) && t == t2,
        None => r is Err,
    }
}

/// What the outcome of a match that can only succeed says of its result `r` and final table
/// `t`: the flag and the table of `owed_outcome`, or an internal error where that is `None`.
pub open spec fn owed_result(
    outcome: Option<(SharedFlag, SLocalTypes)>,
    r: FrontendInternalResult<Option<SharedFlag>>,
    t: SLocalTypes,
) -> bool {
    match outcome {
        Some((f, t2)) => (r matches Ok(Some(g)) && g == f) && t == t2,
        None => r is Err,
    }
}

/// Whether matching two entries on table `s`, where an undefined type parameter carries type
/// values that are the very type values of the other side, succeeds with the table that
/// `owed_outcome` gives unless an internal error stops it: two undefined type parameters of the
/// same uniqueness with the same type values, where only one requiring `shared` means no
/// closure captures the other; an undefined and a defined one of the same uniqueness with the
/// same type values, as `defined_match_owed` says but for the type values; an undefined one (a
/// local type of `s`) and a type that it may stand for, whose arguments are its type values,
/// that satisfies its traits, where it requires no `shared`, is captured by no closure and
/// stands in no non-unique lambda and in no equation of the defined type's type parameters.
pub open spec fn match_owed_same_values(tree: STree, s: SLocalTypes, e1: SEntry, e2: SEntry) -> bool {
    match (e1, e2) {
        (
            SEntry::Param(DefinedFlag::Undefined, u1, p1, l1),
            SEntry::Param(DefinedFlag::Undefined, u2, p2, l2),
        ) => same_values_undefined_owed(p1, p2) && u1 == u2 && l1 != l2,
        (SEntry::Param(DefinedFlag::Undefined, u1, p1, l1), SEntry::Param(DefinedFlag::Defined, u2, p2, l2)) =>
            u1 == u2 && same_values_defined_owed(s, p1, l1, p2, l2),
        (SEntry::Param(DefinedFlag::Defined, u2, p2, l2), SEntry::Param(DefinedFlag::Undefined, u1, p1, l1)) =>
            u1 == u2 && same_values_defined_owed(s, p1, l1, p2, l2),
        (SEntry::Param(DefinedFlag::Undefined, u1, p1, l1), SEntry::Type(t)) => same_values_type_owed(tree, s, u1, p1, l1, t),
        (SEntry::Type(t), SEntry::Param(DefinedFlag::Undefined, u1, p1, l1)) => same_values_type_owed(tree, s, u1, p1, l1, t),
        _ => false,
    }
}

/// The table that a match that `match_owed_same_values` covers leaves where it succeeds: that of
/// `owed_outcome` for two type parameters, the table where the undefined type parameter is bound
/// to the type otherwise; `None` where joining stops at an internal error.
pub open spec fn same_values_table(tree: STree, s: SLocalTypes, e1: SEntry, e2: SEntry) -> Option<SLocalTypes> {
    match (e1, e2) {
        (SEntry::Param(DefinedFlag::Undefined, _, _, l1), SEntry::Type(t)) => Some(with_type_value(s, l1, t)),
        (SEntry::Type(t), SEntry::Param(DefinedFlag::Undefined, _, _, l1)) => Some(with_type_value(s, l1, t)),
        _ => match owed_outcome(tree, s, e1, e2) {
            Some((_, t)) => Some(t),
            None => None,
        },
    }
}

/// The table of `same_values_table` for what two type values stand for in table `s`.
pub open spec fn same_values_table_in(tree: STree, s: SLocalTypes, tv1: STypeValue, tv2: STypeValue) -> Option<
    SLocalTypes,
> {
    match (s.entry_for(tv1), s.entry_for(tv2)) {
        (Some(e1), Some(e2)) => same_values_table(tree, s, e1, e2),
        _ => None,
    }
}

/// Whether matching what two type values stand for in table `s` is covered by
/// `match_owed_same_values`.
pub open spec fn match_owed_same_values_in(tree: STree, s: SLocalTypes, tv1: STypeValue, tv2: STypeValue) -> bool {
    match (s.entry_for(tv1), s.entry_for(tv2)) {
        (Some(e1), Some(e2)) => match_owed_same_values(tree, s, e1, e2),
        _ => false,
    }
}

/// See `match_owed_same_values`: two undefined type parameters with the same type values.
pub open spec fn same_values_undefined_owed(p1: SParamEntry, p2: SParamEntry) -> bool {
    &&& !is_bare(p1)
    &&& !is_bare(p2)
    &&& p1.type_values == p2.type_values
    &&& has_trait(p2, STraitName::Shared) && !has_trait(p1, STraitName::Shared) ==> p1.closure_local_types.len() == 0
    &&& has_trait(p1, STraitName::Shared) && !has_trait(p2, STraitName::Shared) ==> p2.closure_local_types.len() == 0
}

/// Two undefined type parameters that both carry type values, all of them types all the way
/// down, of equal number and matching pairwise on table `s` with `fuel` levels of nesting left;
/// where only one requires `shared`, the other has no closures to share.
pub open spec fn ground_undefined_owed(tree: STree, s: SLocalTypes, p1: SParamEntry, p2: SParamEntry, fuel: nat) -> bool {
    &&& !is_bare(p1)
    &&& !is_bare(p2)
    &&& p1.type_values.len() == p2.type_values.len()
    &&& all_ground(p1.type_values)
    &&& all_ground(p2.type_values)
    &&& ground_args_outcome(tree, s, p1.type_values, p2.type_values, fuel, p1.type_values.len()) matches Some(
        (true, _),
    )
    &&& has_trait(p2, STraitName::Shared) && !has_trait(p1, STraitName::Shared) ==> p1.closure_local_types.len() == 0
    &&& has_trait(p1, STraitName::Shared) && !has_trait(p2, STraitName::Shared) ==> p2.closure_local_types.len() == 0
}

/// The sharing flag that binding an undefined type parameter of entry `p1` to the type `t`
/// gives on table `s`, where the type values of `p1` match the arguments of `t` pairwise with
/// `fuel` levels of nesting left: the sharing of `t`, computed with the sharing of those
/// arguments; `None` where they do not match or an internal error stops it.
pub open spec fn ground_bind_flag(tree: STree, s: SLocalTypes, p1: SParamEntry, t: STypeValue, fuel: nat) -> Option<SharedFlag> {
    match t {
        STypeValue::Type(_, _, a2) => match ground_args_outcome(tree, s, p1.type_values, a2, fuel, a2.len()) {
            Some((true, f)) => match spec_flags(tree, s, t, Some(f), TypeMatcher::fuel()) {
                Some((_, g)) => Some(g),
                None => None,
            },
            _ => None,
        },
        _ => None,
    }
}

/// An undefined type parameter `l1` (uniqueness `u1`, entry `p1`) that carries type values, all
/// of them types all the way down, and a type `t` that it may stand for: of fitting uniqueness,
/// whose arguments, types all the way down too, match those type values (see
/// `ground_bind_flag`), that satisfies each trait of `p1`, which requires neither `shared` nor
/// closures; `l1` stands in no non-unique lambda and in no equation of the defined type's type
/// parameters.
pub open spec fn ground_type_owed(
    tree: STree,
    s: SLocalTypes,
    u1: UniqFlag,
    p1: SParamEntry,
    l1: LocalType,
    t: STypeValue,
    fuel: nat,
) -> bool {
    &&& t matches STypeValue::Type(u2, _, a2) && !(u1 == UniqFlag::Uniq && u2 == UniqFlag::NonUniq)
        && p1.type_values.len() == a2.len() && all_ground(a2)
    &&& all_ground(p1.type_values)
    &&& !is_bare(p1)
    &&& l1.idx < s.len()
    &&& !has_trait(p1, STraitName::Shared)
    &&& forall|i: int|
        0 <= i < p1.trait_names.len() ==> #[trigger] trait_satisfied(tree, p1.trait_names[i], t, SharedFlag::Shared)
            == Some(true)
    &&& p1.closure_local_types.len() == 0
    &&& !s.eq_entry_of(l1.idx as int).is_in_non_uniq_lambda
    &&& !s.eq_entry_of(l1.idx as int).is_defined
    &&& ground_bind_flag(tree, s, p1, t, fuel) is Some
}

/// The sharing of the type `t` computed with the sharing of its arguments as they are matched
/// with the type values of entry `p1` on table `s` with `fuel` levels of nesting left; `None`
/// where an internal error stops it.
pub open spec fn ground_arg_flag(tree: STree, s: SLocalTypes, p1: SParamEntry, t: STypeValue, fuel: nat) -> Option<SharedFlag> {
    match t {
        STypeValue::Type(_, _, a2) => match ground_args_outcome(tree, s, p1.type_values, a2, fuel, a2.len()) {
            Some((_, f)) => match spec_flags(tree, s, t, Some(f), TypeMatcher::fuel()) {
                Some((_, g)) => Some(g),
                None => None,
            },
            None => None,
        },
        _ => None,
    }
}

/// Whether entry `p1` carries type values, types all the way down, as many as the type `t` has
/// arguments, which are types all the way down too.
pub open spec fn ground_type_args(p1: SParamEntry, t: STypeValue) -> bool {
    &&& !is_bare(p1)
    &&& all_ground(p1.type_values)
    &&& t matches STypeValue::Type(_, _, a2) && all_ground(a2) && p1.type_values.len() == a2.len()
}

/// The further reasons given when the undefined type parameter `l1` (entry `p1`) is matched
/// with the type `t` on table `s` where `ground_type_args` holds: as `bare_type_reasons`, with
/// the sharing of `t` that `ground_arg_flag` gives.
pub open spec fn ground_type_reasons(
    tree: STree,
    s: SLocalTypes,
    p1: SParamEntry,
    l1: LocalType,
    t: STypeValue,
    fuel: nat,
    infos: Seq<MismatchedTypeInfo>,
) -> bool {
    let not_shared = ground_arg_flag(tree, s, p1, t, fuel) == Some(SharedFlag::NonShared);
    &&& has_trait(p1, STraitName::Shared) && not_shared ==> reports_type(
        infos,
        stv_type_name(t).unwrap(),
        STraitName::Shared,
        l1,
    )
    &&& l1.idx < s.len() && s.eq_entry_of(l1.idx as int).is_in_non_uniq_lambda && not_shared
        ==> infos.contains(MismatchedTypeInfo::InNonUniqLambda)
}

/// `ground_type_reasons` for two entries, where one is an undefined type parameter and the
/// other a type that `ground_type_args` covers.
pub open spec fn ground_reasons(tree: STree, s: SLocalTypes, e1: SEntry, e2: SEntry, fuel: nat, infos: Seq<MismatchedTypeInfo>) -> bool {
    match (e1, e2) {
        (SEntry::Param(DefinedFlag::Undefined, _, p1, l1), SEntry::Type(t)) => ground_type_args(p1, t)
            ==> ground_type_reasons(tree, s, p1, l1, t, fuel, infos),
        (SEntry::Type(t), SEntry::Param(DefinedFlag::Undefined, _, p1, l1)) => ground_type_args(p1, t)
            ==> ground_type_reasons(tree, s, p1, l1, t, fuel, infos),
        _ => true,
    }
}

/// `ground_reasons` for what two type values stand for in table `s`.
pub open spec fn ground_reasons_in(tree: STree, s: SLocalTypes, tv1: STypeValue, tv2: STypeValue, fuel: nat, infos: Seq<MismatchedTypeInfo>) -> bool {
    match (s.entry_for(tv1), s.entry_for(tv2)) {
        (Some(e1), Some(e2)) => ground_reasons(tree, s, e1, e2, fuel, infos),
        _ => true,
    }
}

/// What `ground_reasons_in` says of the public result `r` of a match whose heads do not
/// mismatch: the reasons of `Mismatched` hold it, and so does the empty list where they matched.
pub open spec fn ground_reasons_result(
    tree: STree,
    s: SLocalTypes,
    tv1: STypeValue,
    tv2: STypeValue,
    fuel: nat,
    r: FrontendInternalResult<TypeMatcherResult>,
) -> bool {
    !heads_mismatch_in(s, tv1, tv2) ==> match r {
        Ok(TypeMatcherResult::Mismatched(infos)) => ground_reasons_in(tree, s, tv1, tv2, fuel, infos@),
        Ok(TypeMatcherResult::Matched) => ground_reasons_in(tree, s, tv1, tv2, fuel, Seq::empty()),
        Err(_) => true,
    }
}

/// Whether two entries are different undefined type parameters of one uniqueness that
/// `ground_undefined_owed` covers, an undefined and a defined one of one uniqueness that
/// `ground_defined_owed` covers, or an undefined type parameter and a type that
/// `ground_type_owed` covers: matching them can then only succeed (see `ground_owed_outcome`).
pub open spec fn match_owed_ground(tree: STree, s: SLocalTypes, e1: SEntry, e2: SEntry, fuel: nat) -> bool {
    match (e1, e2) {
        (
            SEntry::Param(DefinedFlag::Undefined, u1, p1, l1),
            SEntry::Param(DefinedFlag::Undefined, u2, p2, l2),
        ) => u1 == u2 && l1 != l2 && ground_undefined_owed(tree, s, p1, p2, fuel),
        (SEntry::Param(DefinedFlag::Undefined, u1, p1, l1), SEntry::Param(DefinedFlag::Defined, u2, p2, l2)) =>
            u1 == u2 && ground_defined_owed(tree, s, p1, l1, p2, l2, fuel),
        (SEntry::Param(DefinedFlag::Defined, u2, p2, l2), SEntry::Param(DefinedFlag::Undefined, u1, p1, l1)) =>
            u1 == u2 && ground_defined_owed(tree, s, p1, l1, p2, l2, fuel),
        (SEntry::Param(DefinedFlag::Undefined, u1, p1, l1), SEntry::Type(t)) => !heads_mismatch(
            SEntry::Param(DefinedFlag::Undefined, u1, p1, l1),
            SEntry::Type(t),
        ) && ground_type_owed(tree, s, u1, p1, l1, t, fuel),
        (SEntry::Type(t), SEntry::Param(DefinedFlag::Undefined, u1, p1, l1)) => !heads_mismatch(
            SEntry::Param(DefinedFlag::Undefined, u1, p1, l1),
            SEntry::Type(t),
        ) && ground_type_owed(tree, s, u1, p1, l1, t, fuel),
        _ => false,
    }
}

/// The outcome of a match that `match_owed_ground` covers: that of `owed_outcome` for two type
/// parameters; for a type parameter and a type, the flag of `ground_bind_flag` and the table
/// where the type parameter is bound to the type. `None` where an internal error stops it.
pub open spec fn ground_owed_outcome(tree: STree, s: SLocalTypes, e1: SEntry, e2: SEntry, fuel: nat) -> Option<
    (SharedFlag, SLocalTypes),
> {
    match (e1, e2) {
        (SEntry::Param(DefinedFlag::Undefined, _, p1, l1), SEntry::Type(t)) => match ground_bind_flag(tree, s, p1, t, fuel) {
            Some(g) => Some((g, with_type_value(s, l1, t))),
            None => None,
        },
        (SEntry::Type(t), SEntry::Param(DefinedFlag::Undefined, _, p1, l1)) => match ground_bind_flag(tree, s, p1, t, fuel) {
            Some(g) => Some((g, with_type_value(s, l1, t))),
            None => None,
        },
        _ => owed_outcome(tree, s, e1, e2),
    }
}

/// `ground_owed_outcome` for what two type values stand for in table `s`.
pub open spec fn ground_owed_outcome_in(tree: STree, s: SLocalTypes, tv1: STypeValue, tv2: STypeValue, fuel: nat) -> Option<
    (SharedFlag, SLocalTypes),
> {
    match (s.entry_for(tv1), s.entry_for(tv2)) {
        (Some(e1), Some(e2)) => ground_owed_outcome(tree, s, e1, e2, fuel),
        _ => None,
    }
}

/// `match_owed_ground` for what two type values stand for in table `s`.
pub open spec fn match_owed_ground_in(tree: STree, s: SLocalTypes, tv1: STypeValue, tv2: STypeValue, fuel: nat) -> bool {
    match (s.entry_for(tv1), s.entry_for(tv2)) {
        (Some(e1), Some(e2)) => match_owed_ground(tree, s, e1, e2, fuel),
        _ => false,
    }
}

/// See `match_owed_same_values`: an undefined and a defined type parameter with the same type
/// values.
pub open spec fn same_values_defined_owed(
    s: SLocalTypes,
    p1: SParamEntry,
    l1: LocalType,
    p2: SParamEntry,
    l2: LocalType,
) -> bool {
    &&& !is_bare(p1)
    &&& p1.type_values == p2.type_values
    &&& defined_covers(p1, p2)
    &&& forall|x: int|
        0 <= x < s.orig.len() ==> !(#[trigger] in_eq_class(s, l1, x) && !in_eq_class(s, l2, x))
}

/// An undefined type parameter `l1` (entry `p1`) that carries type values, all of them types all
/// the way down, and a defined one `l2` (entry `p2`) whose type values, types all the way down
/// too, match them pairwise on table `s` with `fuel` levels of nesting left; `p2` has every trait
/// and closure of `p1`, and every equation of `l1` is one of `l2`.
pub open spec fn ground_defined_owed(
    tree: STree,
    s: SLocalTypes,
    p1: SParamEntry,
    l1: LocalType,
    p2: SParamEntry,
    l2: LocalType,
    fuel: nat,
) -> bool {
    &&& !is_bare(p1)
    &&& p1.type_values.len() == p2.type_values.len()
    &&& all_ground(p1.type_values)
    &&& all_ground(p2.type_values)
    &&& ground_args_outcome(tree, s, p1.type_values, p2.type_values, fuel, p1.type_values.len()) matches Some(
        (true, _),
    )
    &&& defined_covers(p1, p2)
    &&& forall|x: int|
        0 <= x < s.orig.len() ==> !(#[trigger] in_eq_class(s, l1, x) && !in_eq_class(s, l2, x))
}

/// See `match_owed_same_values`: an undefined type parameter and a type whose arguments are its
/// type values.
pub open spec fn same_values_type_owed(
    tree: STree,
    s: SLocalTypes,
    u1: UniqFlag,
    p1: SParamEntry,
    l1: LocalType,
    t: STypeValue,
) -> bool {
    &&& t matches STypeValue::Type(u2, _, a2) && !(u1 == UniqFlag::Uniq && u2 == UniqFlag::NonUniq)
        && p1.type_values == a2
    &&& !is_bare(p1)
    &&& l1.idx < s.len()
    &&& !has_trait(p1, STraitName::Shared)
    &&& forall|i: int|
        0 <= i < p1.trait_names.len() ==> #[trigger] trait_satisfied(tree, p1.trait_names[i], t, SharedFlag::Shared)
            == Some(true)
    &&& p1.closure_local_types.len() == 0
    &&& !s.eq_entry_of(l1.idx as int).is_in_non_uniq_lambda
    &&& !s.eq_entry_of(l1.idx as int).is_defined
}

/// Whether matching two entries on table `s` succeeds with the outcome that `owed_outcome`
/// gives, unless an internal error stops it there: a type parameter with itself; two undefined
/// type parameters of the same uniqueness as `undefined_match_owed` says; an undefined and a
/// defined one of the same uniqueness as `defined_match_owed` says; an undefined one (a local
/// type of `s`) and a type that it may stand for as `bare_type_match_owed` says.
pub open spec fn match_owed(tree: STree, s: SLocalTypes, e1: SEntry, e2: SEntry) -> bool {
    match (e1, e2) {
        (
            SEntry::Param(DefinedFlag::Undefined, u1, p1, l1),
            SEntry::Param(DefinedFlag::Undefined, u2, p2, l2),
        ) => u1 == u2 && (l1 == l2 || undefined_match_owed(p1, p2)),
        (SEntry::Param(DefinedFlag::Undefined, u1, p1, l1), SEntry::Param(DefinedFlag::Defined, u2, p2, l2)) =>
            u1 == u2 && defined_match_owed(s, p1, l1, p2, l2),
        (SEntry::Param(DefinedFlag::Defined, u2, p2, l2), SEntry::Param(DefinedFlag::Undefined, u1, p1, l1)) =>
            u1 == u2 && defined_match_owed(s, p1, l1, p2, l2),
        (SEntry::Param(DefinedFlag::Defined, u1, _, l1), SEntry::Param(DefinedFlag::Defined, u2, _, l2)) =>
            u1 == u2 && l1 == l2,
        (SEntry::Param(DefinedFlag::Undefined, u1, p1, l1), SEntry::Type(t)) => (t matches STypeValue::Type(
            u2,
            _,
            _,
        ) && !(u1 == UniqFlag::Uniq && u2 == UniqFlag::NonUniq)) && l1.idx < s.len() && bare_type_match_owed(
            tree,
            s,
            p1,
            l1,
            t,
        ),
        (SEntry::Type(t), SEntry::Param(DefinedFlag::Undefined, u1, p1, l1)) => (t matches STypeValue::Type(
            u2,
            _,
            _,
        ) && !(u1 == UniqFlag::Uniq && u2 == UniqFlag::NonUniq)) && l1.idx < s.len() && bare_type_match_owed(
            tree,
            s,
            p1,
            l1,
            t,
        ),
        _ => false,
    }
}

/// Whether matching what two type values stand for in table `s` can only succeed (see
/// `match_owed`).
pub open spec fn match_owed_in(tree: STree, s: SLocalTypes, tv1: STypeValue, tv2: STypeValue) -> bool {
    match (s.entry_for(tv1), s.entry_for(tv2)) {
        (Some(e1), Some(e2)) => match_owed(tree, s, e1, e2),
        _ => false,
    }
}

/// What a sequence held stays in it after a push, and the pushed value is in it.
pub proof fn lemma_contains_pushed(a: Seq<MismatchedTypeInfo>, x: MismatchedTypeInfo)
    ensures
        a.push(x).contains(x),
        forall|y: MismatchedTypeInfo| a.contains(y) ==> #[trigger] a.push(x).contains(y),
{
    assert(a.push(x)[a.len() as int] == x);
    assert forall|y: MismatchedTypeInfo| a.contains(y) implies #[trigger] a.push(x).contains(y) by {
        let k = choose|k: int| 0 <= k < a.len() && a[k] == y;
        assert(a.push(x)[k] == y);
    }
}

/// A reason in `a` stays in any `b` that extends it.
pub proof fn lemma_reports_kept(a: Seq<MismatchedTypeInfo>, b: Seq<MismatchedTypeInfo>)
    requires
        extends(a, b),
    ensures
        forall|l2: LocalType, t: STraitName, l1: LocalType|
            reports_param(a, l2, t, l1) ==> #[trigger] reports_param(b, l2, t, l1),
        forall|n: STypeName, t: STraitName, l1: LocalType|
            reports_type(a, n, t, l1) ==> #[trigger] reports_type(b, n, t, l1),
        forall|c: LocalType, l2: LocalType|
            reports_no_closure(a, c, l2) ==> #[trigger] reports_no_closure(b, c, l2),
{
    assert forall|l2: LocalType, t: STraitName, l1: LocalType|
        reports_param(a, l2, t, l1) implies #[trigger] reports_param(b, l2, t, l1) by {
        let k = choose|k: int| 0 <= k < a.len() && #[trigger] param_info(a[k], l2, t, l1);
        assert(b[k] == a[k]);
        assert(param_info(b[k], l2, t, l1));
    }
    assert forall|n: STypeName, t: STraitName, l1: LocalType|
        reports_type(a, n, t, l1) implies #[trigger] reports_type(b, n, t, l1) by {
        let k = choose|k: int| 0 <= k < a.len() && #[trigger] type_info(a[k], n, t, l1);
        assert(b[k] == a[k]);
        assert(type_info(b[k], n, t, l1));
    }
    assert forall|c: LocalType, l2: LocalType|
        reports_no_closure(a, c, l2) implies #[trigger] reports_no_closure(b, c, l2) by {
        let k = choose|k: int| 0 <= k < a.len() && #[trigger] no_closure_info(a[k], c, l2);
        assert(b[k] == a[k]);
        assert(no_closure_info(b[k], c, l2));
    }
}

/// The table after the type parameter entry of local type `x` gets the trait names `names`;
/// the table itself where `x` is no local type or stands for no type parameter.
pub open spec fn with_names_at(s: SLocalTypes, x: LocalType, names: Seq<STraitName>) -> SLocalTypes {
    if x.idx < s.len() && s.entry_of(x.idx as int) is Param {
        SLocalTypes {
            entries: s.entries.update(s.roots[x.idx as int], with_trait_names(s.entry_of(x.idx as int), names)),
            ..s
        }
    } else {
        s
    }
}

/// One equation-class member `x` gets the trait names `names`, unless its entry is kept at
/// `r1` or `r2`; `None` where `x` is no local type or stands for no type parameter.
pub open spec fn names_to_member(
    s: SLocalTypes,
    x: LocalType,
    r1: LocalType,
    r2: LocalType,
    names: Seq<STraitName>,
) -> Option<SLocalTypes> {
    if x.idx < s.len() {
        match s.entry_of(x.idx as int) {
            SEntry::Param(_, _, _, l) => Some(if l != r1 && l != r2 {
                with_names_at(s, x, names)
            } else {
                s
            }),
            SEntry::Type(_) => None,
        }
    } else {
        None
    }
}

/// The members `xs` get the trait names in turn (see `names_to_member`); `None` at the first
/// member that is no type parameter.
pub open spec fn names_to_members(
    s: SLocalTypes,
    xs: Seq<LocalType>,
    r1: LocalType,
    r2: LocalType,
    names: Seq<STraitName>,
) -> Option<SLocalTypes>
    decreases xs.len(),
{
    if xs.len() == 0 {
        Some(s)
    } else {
        match names_to_members(s, xs.drop_last(), r1, r2, names) {
            None => None,
            Some(t) => names_to_member(t, xs.last(), r1, r2, names),
        }
    }
}

/// Where giving a prefix of the members their trait names stops at an internal error, giving
/// all of them does too.
pub proof fn lemma_names_to_members_none(
    s: SLocalTypes,
    xs: Seq<LocalType>,
    k: int,
    r1: LocalType,
    r2: LocalType,
    names: Seq<STraitName>,
)
    requires
        0 <= k <= xs.len(),
        names_to_members(s, xs.take(k), r1, r2, names) is None,
    ensures
        names_to_members(s, xs, r1, r2, names) is None,
    decreases xs.len(),
{
    if k == xs.len() {
        assert(xs.take(k) =~= xs);
    } else {
        assert(xs.drop_last().take(k) =~= xs.take(k));
        lemma_names_to_members_none(s, xs.drop_last(), k, r1, r2, names);
    }
}

/// What giving the type parameters of the equation class of `root` the trait names `names`,
/// except those kept at `r1` and `r2`, does to table `s`: first the type parameter that the
/// class's root local type stands for, then each member that the class lists. `None` for an
/// internal error: `root` is no local type, or one of them stands for no type parameter.
pub open spec fn spec_set_class_trait_names(
    s: SLocalTypes,
    r1: LocalType,
    r2: LocalType,
    root: LocalType,
    names: Seq<STraitName>,
) -> Option<SLocalTypes> {
    if root.idx >= s.len() {
        None
    } else {
        let er = s.eq_roots[root.idx as int];
        let first = LocalType { idx: s.roots[er] as usize };
        match s.entry_for(STypeValue::Param(UniqFlag::NonUniq, first)) {
            Some(SEntry::Param(_, _, _, l)) => names_to_members(
                if l != r1 && l != r2 {
                    with_names_at(s, l, names)
                } else {
                    s
                },
                s.eq_entry_of(root.idx as int).local_types,
                r1,
                r2,
                names,
            ),
            _ => None,
        }
    }
}

impl TypeMatcher {
    /// Gives the parameters that the equation class of `root_local_type` names the trait names
    /// `trait_names`, except those kept at `root_local_type1` and `root_local_type2`.
    fn set_trait_names_for_local_types(
        &self,
        root_local_type1: LocalType,
        root_local_type2: LocalType,
        root_local_type: LocalType,
        trait_names: &Vec<TraitName>,
        local_types: &mut LocalTypes,
    ) -> (r: FrontendInternalResult<()>)
        requires
            old(local_types).wf(),
        ensures
            keeps_classes(old(local_types)@, final(local_types)@),
            keeps_eq_flags(old(local_types)@, final(local_types)@),
            final(local_types).wf(),
            final(local_types)@.len() == old(local_types)@.len(),
            final(local_types)@.roots == old(local_types)@.roots,
            final(local_types)@.eq_entries == old(local_types)@.eq_entries,
            final(local_types)@.eq_roots == old(local_types)@.eq_roots,
            root_local_type1.idx < old(local_types)@.len() ==> final(local_types)@.entries[root_local_type1.idx as int]
                == old(local_types)@.entries[root_local_type1.idx as int],
            root_local_type2.idx < old(local_types)@.len() ==> final(local_types)@.entries[root_local_type2.idx as int]
                == old(local_types)@.entries[root_local_type2.idx as int],
            forall|i: int|
                0 <= i < old(local_types)@.len() ==> #[trigger] final(local_types)@.entries[i]
                    == old(local_types)@.entries[i] || final(local_types)@.entries[i] == with_trait_names(
                    old(local_types)@.entries[i],
                    trait_names_view(trait_names@),
                ),
            r is Ok <==> spec_set_class_trait_names(
                old(local_types)@,
                root_local_type1,
                root_local_type2,
                root_local_type,
                trait_names_view(trait_names@),
            ) is Some,
            spec_set_class_trait_names(
                old(local_types)@,
                root_local_type1,
                root_local_type2,
                root_local_type,
                trait_names_view(trait_names@),
            ) matches Some(t) ==> final(local_types)@ == t,
    {
        proof {
            local_types.lemma_wf();
        }
        let ghost names = trait_names_view(trait_names@);
        match local_types.eq_root_local_type_and_eq_local_types(root_local_type) {
            Some((eq_root_local_type, eq_local_types)) => {
                let eq_local_type = LocalType::new(
                    local_types.type_entries().root_of(eq_root_local_type.index()),
                );
                match local_types.type_entry_for_type_value(
                    &TypeValue::Param(UniqFlag::NonUniq, eq_local_type),
                ) {
                    Some(LocalTypeEntry::Param(_, _, _, local_type)) => {
                        proof {
                            local_types@.lemma_resolve_param(
                                STypeValue::Param(UniqFlag::NonUniq, eq_local_type),
                                local_types@.len(),
                            );
                        }
                        if local_type != root_local_type1 && local_type != root_local_type2 {
                            local_types.set_trait_names(
                                local_type,
                                crate::entries::duplicate_trait_names(trait_names),
                            );
                        }
                        proof {
                            assert(local_types@ == (if local_type != root_local_type1 && local_type
                                != root_local_type2 {
                                with_names_at(old(local_types)@, local_type, names)
                            } else {
                                old(local_types)@
                            }));
                        }
                    },
                    Some(_) => {
                        return Err(
                            internal_error(
                                "set_trait_names_for_local_types: no type parameter entry",
                            ),
                        );
                    },
                    None => {
                        return Err(
                            internal_error("set_trait_names_for_local_types: no local type entry"),
                        );
                    },
                }
                let ghost n = local_types@.len();
                let ghost s1 = local_types@;
                let ghost xs = eq_local_types@;
                proof {
                    assert(xs.take(0) =~= Seq::<LocalType>::empty());
                    assert(spec_set_class_trait_names(
                        old(local_types)@,
                        root_local_type1,
                        root_local_type2,
                        root_local_type,
                        names,
                    ) == names_to_members(s1, xs, root_local_type1, root_local_type2, names));
                }
                let mut i: usize = 0;
                while i < eq_local_types.len()
                    invariant
                        xs == eq_local_types@,
                        spec_set_class_trait_names(
                            old(local_types)@,
                            root_local_type1,
                            root_local_type2,
                            root_local_type,
                            names,
                        ) == names_to_members(s1, xs, root_local_type1, root_local_type2, names),
                        names == trait_names_view(trait_names@),
                        names_to_members(s1, xs.take(i as int), root_local_type1, root_local_type2, names)
                            == Some(local_types@),
                        local_types.wf(),
                        local_types@.len() == n,
                        n == old(local_types)@.len(),
                        local_types@.roots == old(local_types)@.roots,
                        local_types@.eq_entries == old(local_types)@.eq_entries,
                        local_types@.eq_roots == old(local_types)@.eq_roots,
                        root_local_type1.idx < n ==> local_types@.entries[root_local_type1.idx as int]
                            == old(local_types)@.entries[root_local_type1.idx as int],
                        root_local_type2.idx < n ==> local_types@.entries[root_local_type2.idx as int]
                            == old(local_types)@.entries[root_local_type2.idx as int],
                        forall|x: int|
                            0 <= x < n ==> #[trigger] local_types@.entries[x] == old(local_types)@.entries[x]
                                || local_types@.entries[x] == with_trait_names(
                                old(local_types)@.entries[x],
                                trait_names_view(trait_names@),
                            ),
                        i <= eq_local_types@.len(),
                    decreases eq_local_types@.len() - i,
                {
                    proof {
                        local_types.lemma_wf();
                    }
                    let eq_local_type2 = eq_local_types[i];
                    let found = match local_types.type_entry(eq_local_type2) {
                        Some(LocalTypeEntry::Param(_, _, _, local_type)) => Some(*local_type),
                        Some(_) => None,
                        None => None,
                    };
                    let ghost cur = local_types@;
                    proof {
                        assert(xs.take(i + 1).drop_last() =~= xs.take(i as int));
                        assert(xs.take(i + 1).last() == eq_local_type2);
                    }
                    match found {
                        Some(local_type) => {
                            if local_type != root_local_type1 && local_type != root_local_type2 {
                                local_types.set_trait_names(
                                    eq_local_type2,
                                    crate::entries::duplicate_trait_names(trait_names),
                                );
                            }
                            proof {
                                assert(names_to_member(cur, eq_local_type2, root_local_type1, root_local_type2, names)
                                    == Some(local_types@));
                            }
                        },
                        None => {
                            proof {
                                assert(names_to_member(cur, eq_local_type2, root_local_type1, root_local_type2, names)
                                    is None);
                                lemma_names_to_members_none(
                                    s1,
                                    xs,
                                    i + 1,
                                    root_local_type1,
                                    root_local_type2,
                                    names,
                                );
                            }
                            return Err(
                                internal_error(
                                    "set_trait_names_for_local_types: no type parameter entry",
                                ),
                            );
                        },
                    }
                    i = i + 1;
                }
                proof {
                    assert(xs.take(xs.len() as int) =~= xs);
                }
                Ok(())
            },
            None => Err(
                internal_error(
                    "set_trait_names_for_local_types: no equation root local type and no equation local types",
                ),
            ),
        }
    }

    /// Whether each of the type values shares (see `spec_args_flag`), through `shared_flag` of
    /// each; `Err` on an internal error.
    fn all_shared(&self, type_values: &Vec<TypeValue>, tree: &Tree, local_types: &LocalTypes) -> (r:
        FrontendInternalResult<SharedFlag>)
        requires
            local_types.wf(),
        ensures
            match r {
                Ok(f) => spec_args_flag(tree@, local_types@, type_values_view(type_values@), Self::fuel())
                    == Some(f),
                Err(_) => spec_args_flag(
                    tree@,
                    local_types@,
                    type_values_view(type_values@),
                    Self::fuel(),
                ) is None,
            },
    {
        self.args_shared_flag(type_values, tree, local_types, TYPE_DEPTH_LIMIT)
    }

    /// Makes each closure local type shared; a reason is added for each that cannot be. Answers
    /// whether all could.
    fn set_shared_for_closures(
        &self,
        closure_local_types: &Vec<LocalType>,
        tree: &Tree,
        local_types: &mut LocalTypes,
        infos: &mut Vec<MismatchedTypeInfo>,
    ) -> (r: FrontendInternalResult<bool>)
        requires
            old(local_types).wf(),
        ensures
            keeps_classes(old(local_types)@, final(local_types)@),
            keeps_eq_flags(old(local_types)@, final(local_types)@),
            final(local_types).wf(),
            final(local_types)@.len() == old(local_types)@.len(),
            extends(old(infos)@, final(infos)@),
            final(local_types)@.eq_entries == old(local_types)@.eq_entries,
            final(local_types)@.eq_roots == old(local_types)@.eq_roots,
            closure_local_types@.len() == 0 ==> (r matches Ok(true)) && final(local_types)@ == old(local_types)@
                && final(infos)@ == old(infos)@,
            r matches Ok(b) ==> b == (final(infos)@.len() == old(infos)@.len()),
            r matches Ok(true) ==> final(infos)@ == old(infos)@,
            forall|k: int|
                old(infos)@.len() <= k < final(infos)@.len() ==> (#[trigger] final(infos)@[k] matches MismatchedTypeInfo::SharedClosure(
                    c,
                ) && closure_local_types@.contains(c)),
            closures_result(
                spec_closures(tree@, old(local_types)@, closure_local_types@, closure_local_types@.len()),
                r,
                final(local_types)@,
                old(infos)@,
                final(infos)@,
            ),
    {
        proof {
            local_types.lemma_wf();
            lemma_keeps_same_roots(local_types@, local_types@);
        }
        proof {
            lemma_extends_refl(infos@);
        }
        let mut ok = true;
        let mut i: usize = 0;
        while i < closure_local_types.len()
            invariant
                local_types.wf(),
                local_types@.len() == old(local_types)@.len(),
                extends(old(infos)@, infos@),
                local_types@.eq_entries == old(local_types)@.eq_entries,
                local_types@.eq_roots == old(local_types)@.eq_roots,
                !ok ==> closure_local_types@.len() > 0,
                i == 0 ==> local_types@ == old(local_types)@ && infos@ == old(infos)@,
                ok ==> infos@ == old(infos)@,
                ok == (infos@.len() == old(infos)@.len()),
                i <= closure_local_types@.len(),
                old(local_types)@.well_formed(),
                keeps_classes(old(local_types)@, local_types@),
                keeps_eq_flags(old(local_types)@, local_types@),
                forall|k: int|
                    old(infos)@.len() <= k < infos@.len() ==> (#[trigger] infos@[k] matches MismatchedTypeInfo::SharedClosure(
                        c,
                    ) && closure_local_types@.contains(c)),
                spec_closures(tree@, old(local_types)@, closure_local_types@, i as nat) matches Some((b, t, v)) && b
                    == ok && t == local_types@ && infos_view(infos@) == infos_view(old(infos)@) + v,
            decreases closure_local_types@.len() - i,
        {
            let c = closure_local_types[i];
            let ghost before = local_types@;
            let shared = self.set_shared(c, tree, local_types);
            proof {
                lemma_keeps_trans(old(local_types)@, before, local_types@);
                lemma_keeps_eq_flags_trans(old(local_types)@, before, local_types@);
            }
            proof {
                assert(closure_local_types@[i as int] == c);
                if shared is Err {
                    lemma_closures_none(
                        tree@,
                        old(local_types)@,
                        closure_local_types@,
                        (i + 1) as nat,
                        closure_local_types@.len(),
                    );
                }
            }
            let ghost pre = infos@;
            if !shared? {
                proof {
                    lemma_extends_push(old(infos)@, infos@, MismatchedTypeInfo::SharedClosure(c));
                    let v = spec_closures(tree@, old(local_types)@, closure_local_types@, i as nat).unwrap().2;
                    lemma_infos_view_push(pre, MismatchedTypeInfo::SharedClosure(c));
                    lemma_infos_view_append(old(infos)@, v, MismatchedTypeInfo::SharedClosure(c));
                }
                infos.push(MismatchedTypeInfo::SharedClosure(c));
                ok = false;
            }
            i = i + 1;
        }
        proof {
            assert(closure_local_types@.len() as nat == i as nat);
        }
        Ok(ok)
    }

    /// Matches the type values pairwise; answers whether all matched and whether all of the
    /// matched ones share.
    fn match_type_value_lists(
        &self,
        type_values1: &Vec<TypeValue>,
        type_values2: &Vec<TypeValue>,
        tree: &Tree,
        local_types: &mut LocalTypes,
        infos: &mut Vec<MismatchedTypeInfo>,
        fuel: usize,
    ) -> (r: FrontendInternalResult<(bool, SharedFlag)>)
        requires
            old(local_types).wf(),
            type_values1@.len() == type_values2@.len(),
        ensures
            keeps_classes(old(local_types)@, final(local_types)@),
            keeps_eq_flags(old(local_types)@, final(local_types)@),
            final(local_types).wf(),
            final(local_types)@.len() == old(local_types)@.len(),
            extends(old(infos)@, final(infos)@),
            type_values_view(type_values1@) == type_values_view(type_values2@) ==> (r is Err || r
                matches Ok((true, _))) && final(local_types)@ == old(local_types)@ && final(infos)@
                == old(infos)@,
            r matches Ok((true, _)) ==> final(infos)@ == old(infos)@,
            all_ground(type_values_view(type_values1@)) && all_ground(type_values_view(type_values2@)) ==> ground_args_result(
                ground_args_outcome(
                    tree@,
                    old(local_types)@,
                    type_values_view(type_values1@),
                    type_values_view(type_values2@),
                    fuel as nat,
                    type_values1@.len(),
                ),
                r,
            ) && final(local_types)@ == old(local_types)@ && final(infos)@ == old(infos)@,
            r matches Ok((true, _)) ==> args_matched(
                tree@,
                old(local_types)@,
                final(local_types)@,
                type_values_view(type_values1@),
                type_values_view(type_values2@),
            ),
            lists_result(
                spec_match_lists(
                    tree@,
                    old(local_types)@,
                    type_values_view(type_values1@),
                    type_values_view(type_values2@),
                    fuel as nat,
                    type_values1@.len(),
                ),
                r,
                final(local_types)@,
                old(infos)@,
                final(infos)@,
            ),
        decreases fuel, 1nat,
    {
        proof {
            local_types.lemma_wf();
            lemma_keeps_same_roots(local_types@, local_types@);
        }
        proof {
            lemma_extends_refl(infos@);
            lemma_type_values_view(type_values1@);
            lemma_type_values_view(type_values2@);
        }
        let ghost same = type_values_view(type_values1@) == type_values_view(type_values2@);
        let ghost ground = all_ground(type_values_view(type_values1@)) && all_ground(type_values_view(type_values2@));
        let ghost vs1 = type_values_view(type_values1@);
        let ghost vs2 = type_values_view(type_values2@);
        let ghost mut ts: Seq<SLocalTypes> = seq![local_types@];
        let mut ok = true;
        let mut flag = SharedFlag::Shared;
        let mut i: usize = 0;
        while i < type_values1.len()
            invariant
                vs1 == type_values_view(type_values1@),
                vs2 == type_values_view(type_values2@),
                ok ==> args_chain(tree@, ts, vs1.take(i as int), vs2.take(i as int)) && ts[0] == old(
                    local_types,
                )@ && ts.last() == local_types@,
                local_types.wf(),
                local_types@.len() == old(local_types)@.len(),
                extends(old(infos)@, infos@),
                i <= type_values1@.len(),
                type_values1@.len() == type_values2@.len(),
                same == (type_values_view(type_values1@) == type_values_view(type_values2@)),
                type_values_view(type_values1@).len() == type_values1@.len(),
                type_values_view(type_values2@).len() == type_values2@.len(),
                forall|j: int|
                    0 <= j < type_values1@.len() ==> #[trigger] type_values_view(type_values1@)[j]
                        == type_values1@[j]@,
                forall|j: int|
                    0 <= j < type_values2@.len() ==> #[trigger] type_values_view(type_values2@)[j]
                        == type_values2@[j]@,
                same ==> ok && local_types@ == old(local_types)@ && infos@ == old(infos)@,
                old(local_types)@.well_formed(),
                keeps_classes(old(local_types)@, local_types@),
                keeps_eq_flags(old(local_types)@, local_types@),
                ok ==> infos@ == old(infos)@,
                ground ==> ground_args_outcome(tree@, old(local_types)@, vs1, vs2, fuel as nat, i as nat) == Some(
                    (ok, flag),
                ) && local_types@ == old(local_types)@ && infos@ == old(infos)@,
                ground == (all_ground(vs1) && all_ground(vs2)),
                spec_match_lists(tree@, old(local_types)@, vs1, vs2, fuel as nat, i as nat) matches Some((b, g, t, v))
                    && b == ok && g == flag && t == local_types@ && infos_view(infos@) == infos_view(old(infos)@) + v,
            decreases type_values1@.len() - i,
        {
            proof {
                if same {
                    assert(type_values_view(type_values1@)[i as int] == type_values_view(
                        type_values2@,
                    )[i as int]);
                    assert(type_values1@[i as int]@ == type_values2@[i as int]@);
                }
            }
            let ghost before = local_types@;
            let ghost infos_before = infos@;
            let ghost prev = spec_match_lists(tree@, old(local_types)@, vs1, vs2, fuel as nat, i as nat).unwrap();
            let matched = self.match_type_values_with_infos(
                &type_values1[i],
                &type_values2[i],
                tree,
                local_types,
                infos,
                fuel,
            );
            proof {
                lemma_keeps_trans(old(local_types)@, before, local_types@);
                lemma_keeps_eq_flags_trans(old(local_types)@, before, local_types@);
                assert(vs1[i as int] == type_values1@[i as int]@);
                assert(vs2[i as int] == type_values2@[i as int]@);
                if matched is Err {
                    lemma_match_lists_none(tree@, old(local_types)@, vs1, vs2, fuel as nat, (i + 1) as nat, vs1.len());
                } else {
                    let w = spec_match_tvs(tree@, before, vs1[i as int], vs2[i as int], fuel as nat).unwrap().2;
                    assert(infos_view(infos@) == infos_view(old(infos)@) + (prev.3 + w)) by {
                        assert(infos_view(infos@) == infos_view(infos_before) + w);
                        assert(infos_view(infos_before) == infos_view(old(infos)@) + prev.3);
                        assert(infos_view(old(infos)@) + prev.3 + w =~= infos_view(old(infos)@) + (prev.3 + w));
                    }
                }
                if ground {
                    assert(ground_type(vs1[i as int]) && ground_type(vs2[i as int]));
                    if matched is Err {
                        lemma_ground_args_none(
                            tree@,
                            old(local_types)@,
                            vs1,
                            vs2,
                            fuel as nat,
                            (i + 1) as nat,
                            vs1.len(),
                        );
                    }
                }
            }
            match matched? {
                Some(f) => {
                    if f == SharedFlag::NonShared {
                        flag = SharedFlag::NonShared;
                    }
                    proof {
                        if ok {
                            let ts2 = ts.push(local_types@);
                            let a = vs1.take(i + 1);
                            let b = vs2.take(i + 1);
                            assert forall|k: int| 0 <= k < a.len() implies #[trigger] matched_in(
                                tree@,
                                ts2[k],
                                ts2[k + 1],
                                a[k],
                                b[k],
                            ) by {
                                if k < i {
                                    assert(vs1.take(i as int)[k] == a[k]);
                                    assert(vs2.take(i as int)[k] == b[k]);
                                    assert(matched_in(
                                        tree@,
                                        ts[k],
                                        ts[k + 1],
                                        vs1.take(i as int)[k],
                                        vs2.take(i as int)[k],
                                    ));
                                } else {
                                    assert(ts2[k] == before);
                                }
                            }
                            ts = ts2;
                        }
                    }
                },
                None => {
                    ok = false;
                },
            }
            i = i + 1;
        }
        proof {
            assert(vs1.take(vs1.len() as int) =~= vs1);
            assert(vs2.take(vs2.len() as int) =~= vs2);
            if ok {
                assert(args_chain(tree@, ts, vs1, vs2));
            }
        }
        Ok((ok, flag))
    }

    /// Matches two type values: finds the entries they stand for and matches those.
    fn match_type_values_with_infos(
        &self,
        type_value1: &TypeValue,
        type_value2: &TypeValue,
        tree: &Tree,
        local_types: &mut LocalTypes,
        infos: &mut Vec<MismatchedTypeInfo>,
        fuel: usize,
    ) -> (r: FrontendInternalResult<Option<SharedFlag>>)
        requires
            old(local_types).wf(),
        ensures
            r matches Ok(Some(_)) ==> final(infos)@ == old(infos)@,
            keeps_classes(old(local_types)@, final(local_types)@),
            keeps_eq_flags(old(local_types)@, final(local_types)@),
            final(local_types).wf(),
            final(local_types)@.len() == old(local_types)@.len(),
            extends(old(infos)@, final(infos)@),
            type_value1@ == type_value2@ ==> (r is Err || r matches Ok(Some(_))) && final(local_types)@ == old(local_types)@ && final(infos)@ == old(infos)@,
            r matches Ok(Some(_)) ==> matched_in(
                tree@,
                old(local_types)@,
                final(local_types)@,
                type_value1@,
                type_value2@,
            ),
            fuel > 0 && heads_mismatch_in(old(local_types)@, type_value1@, type_value2@) ==> (r matches Ok(
                None,
            )) && final(local_types)@ == old(local_types)@ && final(infos)@ == old(infos)@,
            (old(local_types)@.entry_for(type_value1@) is None || old(local_types)@.entry_for(
                type_value2@,
            ) is None) ==> r is Err && final(local_types)@ == old(local_types)@ && final(infos)@ == old(infos)@,
            r matches Ok(Some(_)) ==> type_args_matched(
                tree@,
                old(local_types)@,
                final(local_types)@,
                type_value1@,
                type_value2@,
            ),
            r is Ok && !heads_mismatch_in(old(local_types)@, type_value1@, type_value2@) ==> ground_reasons_in(
                tree@,
                old(local_types)@,
                type_value1@,
                type_value2@,
                (fuel - 1) as nat,
                final(infos)@,
            ),
            r is Ok && !heads_mismatch_in(old(local_types)@, type_value1@, type_value2@)
                ==> reasons_reported_in(tree@, old(local_types)@, type_value1@, type_value2@, final(infos)@),
            fuel > 0 && match_owed_in(tree@, old(local_types)@, type_value1@, type_value2@) ==> owed_result(
                owed_outcome_in(tree@, old(local_types)@, type_value1@, type_value2@),
                r,
                final(local_types)@,
            ) && final(infos)@ == old(infos)@,
            fuel > 0 && match_owed_same_values_in(tree@, old(local_types)@, type_value1@, type_value2@) ==> (r is Err
                || (r matches Ok(Some(_)) && same_values_table_in(
                tree@,
                old(local_types)@,
                type_value1@,
                type_value2@,
            ) == Some(final(local_types)@) && final(infos)@ == old(infos)@)),
            ground_type(type_value1@) && ground_type(type_value2@) ==> ground_result(
                ground_match_outcome(tree@, old(local_types)@, type_value1@, type_value2@, fuel as nat),
                r,
            ) && final(local_types)@ == old(local_types)@ && final(infos)@ == old(infos)@,
            ground_entries_in(old(local_types)@, type_value1@, type_value2@) ==> ground_result(
                ground_outcome_in(tree@, old(local_types)@, type_value1@, type_value2@, fuel as nat),
                r,
            ) && final(local_types)@ == old(local_types)@ && final(infos)@ == old(infos)@,
            fuel > 0 && match_owed_ground_in(tree@, old(local_types)@, type_value1@, type_value2@, (fuel - 1) as nat)
                ==> owed_result(
                ground_owed_outcome_in(tree@, old(local_types)@, type_value1@, type_value2@, (fuel - 1) as nat),
                r,
                final(local_types)@,
            ) && final(infos)@ == old(infos)@,
            match_result(
                spec_match_tvs(tree@, old(local_types)@, type_value1@, type_value2@, fuel as nat),
                r,
                final(local_types)@,
                old(infos)@,
                final(infos)@,
            ),
        decreases fuel, 0nat,
    {
        proof {
            local_types.lemma_wf();
            lemma_keeps_same_roots(local_types@, local_types@);
        }
        proof {
            lemma_extends_refl(infos@);
        }
        if fuel == 0 {
            return Err(internal_error("match_type_values_with_infos: too deep type"));
        }
        let local_type_entry1 = local_types.type_entry_for_type_value(type_value1);
        let local_type_entry2 = local_types.type_entry_for_type_value(type_value2);
        match (local_type_entry1, local_type_entry2) {
            (Some(local_type_entry1), Some(local_type_entry2)) => self.match_local_type_entries_with_infos(
                &local_type_entry1,
                &local_type_entry2,
                tree,
                local_types,
                infos,
                fuel - 1,
            ),
            (_, _) => Err(internal_error("match_type_values_with_infos: no local type entry")),
        }
    }

    /// Matches two entries; binds, joins or checks type parameters on the way. `Ok(None)` when
    /// they do not match, with the reasons added to `infos`; `Ok(Some(flag))` with the sharing
    /// of the matched type when they do.
    fn match_local_type_entries_with_infos(
        &self,
        local_type_entry1: &LocalTypeEntry,
        local_type_entry2: &LocalTypeEntry,
        tree: &Tree,
        local_types: &mut LocalTypes,
        infos: &mut Vec<MismatchedTypeInfo>,
        fuel: usize,
    ) -> (r: FrontendInternalResult<Option<SharedFlag>>)
        requires
            old(local_types).wf(),
        ensures
            r matches Ok(Some(_)) ==> final(infos)@ == old(infos)@,
            keeps_classes(old(local_types)@, final(local_types)@),
            keeps_eq_flags(old(local_types)@, final(local_types)@),
            final(local_types).wf(),
            final(local_types)@.len() == old(local_types)@.len(),
            extends(old(infos)@, final(infos)@),
            local_type_entry1@ == local_type_entry2@ ==> (r is Err || r matches Ok(Some(_)))
                && final(local_types)@ == old(local_types)@ && final(infos)@ == old(infos)@,
            r matches Ok(Some(_)) ==> heads_can_match(local_type_entry1@, local_type_entry2@),
            r matches Ok(Some(_)) ==> unified_by_match(
                final(local_types)@,
                local_type_entry1@,
                local_type_entry2@,
            ),
            r matches Ok(Some(_)) ==> traits_hold(tree@, local_type_entry1@, local_type_entry2@),
            heads_mismatch(local_type_entry1@, local_type_entry2@) ==> (r matches Ok(None)) && final(local_types)@ == old(local_types)@ && final(infos)@ == old(infos)@,
            r matches Ok(Some(_)) ==> entries_args_matched(
                tree@,
                old(local_types)@,
                final(local_types)@,
                local_type_entry1@,
                local_type_entry2@,
            ),
            r is Ok && !heads_mismatch(local_type_entry1@, local_type_entry2@) ==> ground_reasons(
                tree@,
                old(local_types)@,
                local_type_entry1@,
                local_type_entry2@,
                fuel as nat,
                final(infos)@,
            ),
            r is Ok && !heads_mismatch(local_type_entry1@, local_type_entry2@) ==> reasons_reported(
                tree@,
                old(local_types)@,
                local_type_entry1@,
                local_type_entry2@,
                final(infos)@,
            ),
            match_owed(tree@, old(local_types)@, local_type_entry1@, local_type_entry2@) ==> owed_result(
                owed_outcome(tree@, old(local_types)@, local_type_entry1@, local_type_entry2@),
                r,
                final(local_types)@,
            ) && final(infos)@ == old(infos)@,
            ground_entries(local_type_entry1@, local_type_entry2@) ==> ground_result(
                ground_entries_outcome(tree@, old(local_types)@, local_type_entry1@, local_type_entry2@, fuel as nat),
                r,
            ) && final(local_types)@ == old(local_types)@ && final(infos)@ == old(infos)@,
            match_owed_ground(tree@, old(local_types)@, local_type_entry1@, local_type_entry2@, fuel as nat) ==> owed_result(
                ground_owed_outcome(tree@, old(local_types)@, local_type_entry1@, local_type_entry2@, fuel as nat),
                r,
                final(local_types)@,
            ) && final(infos)@ == old(infos)@,
            r matches Ok(Some(g)) ==> types_flag_facts(
                tree@,
                final(local_types)@,
                local_type_entry1@,
                local_type_entry2@,
                g,
            ),
            r matches Ok(Some(g)) ==> match_flag_facts(
                tree@,
                old(local_types)@,
                local_type_entry1@,
                local_type_entry2@,
                g,
            ),
            match_owed_same_values(tree@, old(local_types)@, local_type_entry1@, local_type_entry2@) ==> (r is Err
                || (r matches Ok(Some(_)) && same_values_table(
                tree@,
                old(local_types)@,
                local_type_entry1@,
                local_type_entry2@,
            ) == Some(final(local_types)@) && final(infos)@ == old(infos)@)),
            r matches Ok(Some(_)) ==> flags_after_match(
                old(local_types)@,
                final(local_types)@,
                local_type_entry1@,
                local_type_entry2@,
            ),
            match_result(
                spec_match_entries(tree@, old(local_types)@, local_type_entry1@, local_type_entry2@, fuel as nat),
                r,
                final(local_types)@,
                old(infos)@,
                final(infos)@,
            ),
        decreases fuel, 3nat,
    {
        proof {
            local_types.lemma_wf();
            lemma_keeps_same_roots(local_types@, local_types@);
        }
        proof {
            lemma_extends_refl(infos@);
        }
        match (local_type_entry1, local_type_entry2) {
            (
                LocalTypeEntry::Param(crate::types::DefinedFlag::Undefined, uniq_flag1, type_param_entry1, local_type1),
                LocalTypeEntry::Param(crate::types::DefinedFlag::Undefined, uniq_flag2, type_param_entry2, local_type2),
            ) => self.match_undefined_params(
                *uniq_flag1,
                type_param_entry1,
                *local_type1,
                *uniq_flag2,
                type_param_entry2,
                *local_type2,
                tree,
                local_types,
                infos,
                fuel,
            ),
            (
                LocalTypeEntry::Param(crate::types::DefinedFlag::Undefined, uniq_flag1, type_param_entry1, local_type1),
                LocalTypeEntry::Param(crate::types::DefinedFlag::Defined, uniq_flag2, type_param_entry2, local_type2),
            ) => self.match_undefined_and_defined_params(
                *uniq_flag1,
                type_param_entry1,
                *local_type1,
                *uniq_flag2,
                type_param_entry2,
                *local_type2,
                tree,
                local_types,
                infos,
                fuel,
            ),
            (
                LocalTypeEntry::Param(crate::types::DefinedFlag::Undefined, uniq_flag1, type_param_entry1, local_type1),
                LocalTypeEntry::Type(type_value2),
            ) => self.match_undefined_param_and_type(
                *uniq_flag1,
                type_param_entry1,
                *local_type1,
                type_value2,
                tree,
                local_types,
                infos,
                fuel,
            ),
            (
                LocalTypeEntry::Param(crate::types::DefinedFlag::Defined, uniq_flag1, type_param_entry1, local_type1),
                LocalTypeEntry::Param(crate::types::DefinedFlag::Undefined, uniq_flag2, type_param_entry2, local_type2),
            ) => self.match_undefined_and_defined_params(
                *uniq_flag2,
                type_param_entry2,
                *local_type2,
                *uniq_flag1,
                type_param_entry1,
                *local_type1,
                tree,
                local_types,
                infos,
                fuel,
            ),
            (
                LocalTypeEntry::Param(crate::types::DefinedFlag::Defined, uniq_flag1, _, local_type1),
                LocalTypeEntry::Param(crate::types::DefinedFlag::Defined, uniq_flag2, _, local_type2),
            ) => {
                if *uniq_flag1 != *uniq_flag2 || *local_type1 != *local_type2 {
                    return Ok(None);
                }
                let shared_flag = self.shared_flag_for_type_value2(
                    &TypeValue::Param(*uniq_flag1, *local_type1),
                    None,
                    tree,
                    local_types,
                )?;
                Ok(Some(shared_flag))
            },
            (
                LocalTypeEntry::Type(type_value1),
                LocalTypeEntry::Param(crate::types::DefinedFlag::Undefined, uniq_flag2, type_param_entry2, local_type2),
            ) => self.match_undefined_param_and_type(
                *uniq_flag2,
                type_param_entry2,
                *local_type2,
                type_value1,
                tree,
                local_types,
                infos,
                fuel,
            ),
            (LocalTypeEntry::Type(type_value1), LocalTypeEntry::Type(type_value2)) => self.match_types(
                type_value1,
                type_value2,
                tree,
                local_types,
                infos,
                fuel,
            ),
            _ => Ok(None),
        }
    }
}

impl TypeMatcher {
    /// Matches two undefined type parameters: their type values must match, `shared` on one
    /// side must be possible for the other; then they are joined and share a merged entry.
    #[verifier::rlimit(100)]
    #[verifier::spinoff_prover]
    fn match_undefined_params(
        &self,
        uniq_flag1: UniqFlag,
        type_param_entry1: &TypeParamEntry,
        local_type1: LocalType,
        uniq_flag2: UniqFlag,
        type_param_entry2: &TypeParamEntry,
        local_type2: LocalType,
        tree: &Tree,
        local_types: &mut LocalTypes,
        infos: &mut Vec<MismatchedTypeInfo>,
        fuel: usize,
    ) -> (r: FrontendInternalResult<Option<SharedFlag>>)
        requires
            old(local_types).wf(),
        ensures
            r matches Ok(Some(_)) ==> final(infos)@ == old(infos)@,
            keeps_classes(old(local_types)@, final(local_types)@),
            keeps_eq_flags(old(local_types)@, final(local_types)@),
            final(local_types).wf(),
            final(local_types)@.len() == old(local_types)@.len(),
            extends(old(infos)@, final(infos)@),
            uniq_flag1 == uniq_flag2 && local_type1 == local_type2 ==> (r is Err || r matches Ok(
                Some(_),
            )) && final(local_types)@ == old(local_types)@ && final(infos)@ == old(infos)@,
            r matches Ok(Some(_)) ==> uniq_flag1 == uniq_flag2,
            r matches Ok(Some(_)) ==> final(local_types)@.roots[local_type1.idx as int]
                == final(local_types)@.roots[local_type2.idx as int] && final(local_types)@.eq_roots[local_type1.idx as int]
                == final(local_types)@.eq_roots[local_type2.idx as int],
            r matches Ok(Some(_)) ==> heads_can_match(
                SEntry::Param(DefinedFlag::Undefined, uniq_flag1, type_param_entry1@, local_type1),
                SEntry::Param(DefinedFlag::Undefined, uniq_flag2, type_param_entry2@, local_type2),
            ),
            heads_mismatch(
                SEntry::Param(DefinedFlag::Undefined, uniq_flag1, type_param_entry1@, local_type1),
                SEntry::Param(DefinedFlag::Undefined, uniq_flag2, type_param_entry2@, local_type2),
            ) ==> (r matches Ok(None)) && final(local_types)@ == old(local_types)@ && final(infos)@
                == old(infos)@,
            (r matches Ok(Some(_))) && local_type1 != local_type2 ==> (final(local_types)@.entry_of(
                local_type1.idx as int,
            ) matches SEntry::Param(DefinedFlag::Undefined, _, p, _) && p == merged_param_entry(
                type_param_entry1@,
                type_param_entry2@,
            )),
            r is Ok && uniq_flag1 == uniq_flag2 && local_type1 != local_type2 ==> undefined_reasons(
                tree@,
                old(local_types)@,
                type_param_entry1@,
                local_type1,
                type_param_entry2@,
                local_type2,
                final(infos)@,
            ),
            uniq_flag1 == uniq_flag2 && undefined_match_owed(type_param_entry1@, type_param_entry2@) ==> (r is Err
                || r matches Ok(Some(_))),
            r matches Ok(Some(_)) && (is_bare(type_param_entry1@) || is_bare(type_param_entry2@)
                || type_param_entry1@.type_values == type_param_entry2@.type_values)
                ==> class_flags_merged(old(local_types)@, final(local_types)@, local_type1, local_type2),
            uniq_flag1 == uniq_flag2 && local_type1 == local_type2 ==> owed_result(
                flag_outcome(tree@, old(local_types)@, STypeValue::Param(uniq_flag1, local_type1)),
                r,
                final(local_types)@,
            ) && final(infos)@ == old(infos)@,
            uniq_flag1 == uniq_flag2 && local_type1 != local_type2 && undefined_match_owed(
                type_param_entry1@,
                type_param_entry2@,
            ) ==> owed_result(
                join_outcome(
                    tree@,
                    old(local_types)@,
                    local_type1,
                    local_type2,
                    uniq_flag1,
                    merged_param_entry(type_param_entry1@, type_param_entry2@),
                    DefinedFlag::Undefined,
                ),
                r,
                final(local_types)@,
            ) && final(infos)@ == old(infos)@,
            uniq_flag1 == uniq_flag2 && local_type1 != local_type2 && same_values_undefined_owed(
                type_param_entry1@,
                type_param_entry2@,
            ) ==> (r is Err || owed_result(
                join_outcome(
                    tree@,
                    old(local_types)@,
                    local_type1,
                    local_type2,
                    uniq_flag1,
                    merged_param_entry(type_param_entry1@, type_param_entry2@),
                    DefinedFlag::Undefined,
                ),
                r,
                final(local_types)@,
            )) && (r is Ok ==> final(infos)@ == old(infos)@),
            uniq_flag1 == uniq_flag2 && local_type1 != local_type2 && ground_undefined_owed(
                tree@,
                old(local_types)@,
                type_param_entry1@,
                type_param_entry2@,
                fuel as nat,
            ) ==> owed_result(
                join_outcome(
                    tree@,
                    old(local_types)@,
                    local_type1,
                    local_type2,
                    uniq_flag1,
                    merged_param_entry(type_param_entry1@, type_param_entry2@),
                    DefinedFlag::Undefined,
                ),
                r,
                final(local_types)@,
            ) && final(infos)@ == old(infos)@,
            match_result(
                spec_match_undefined(
                    tree@,
                    old(local_types)@,
                    uniq_flag1,
                    type_param_entry1@,
                    local_type1,
                    uniq_flag2,
                    type_param_entry2@,
                    local_type2,
                    fuel as nat,
                ),
                r,
                final(local_types)@,
                old(infos)@,
                final(infos)@,
            ),
        decreases fuel, 2nat,
    {
        proof {
            local_types.lemma_wf();
            lemma_keeps_same_roots(local_types@, local_types@);
        }
        proof {
            lemma_extends_refl(infos@);
            lemma_type_values_view(type_param_entry1.type_values@);
            lemma_type_values_view(type_param_entry2.type_values@);
        }
        if uniq_flag1 != uniq_flag2 {
            return Ok(None);
        }
        let uniq_flag = uniq_flag1;
        if local_type1 == local_type2 {
            let shared_flag = self.shared_flag_for_type_value2(
                &TypeValue::Param(uniq_flag, local_type1),
                None,
                tree,
                local_types,
            )?;
            return Ok(Some(shared_flag));
        }
        let are_type_values1 = !type_param_entry1.is_bare();
        let are_type_values2 = !type_param_entry2.is_bare();
        let mut is_success = true;
        let ghost mut gv: Seq<SInfo> = Seq::empty();
        proof {
            assert(infos_view(infos@) =~= infos_view(old(infos)@) + gv);
        }
        if are_type_values1 && are_type_values2 {
            if type_param_entry1.type_values.len() != type_param_entry2.type_values.len() {
                return Ok(None);
            }
            let ghost infos0 = infos@;
            let lists = self.match_type_value_lists(
                &type_param_entry1.type_values,
                &type_param_entry2.type_values,
                tree,
                local_types,
                infos,
                fuel,
            );
            proof {
                if lists is Ok {
                    gv = spec_match_lists(
                        tree@,
                        old(local_types)@,
                        type_param_entry1@.type_values,
                        type_param_entry2@.type_values,
                        fuel as nat,
                        type_param_entry1@.type_values.len(),
                    ).unwrap().3;
                }
            }
            let (ok, _) = lists?;
            if !ok {
                is_success = false;
            }
        }
        let ghost infos1 = infos@;
        let ghost t1 = local_types@;
        let ghost ok1 = is_success;
        let ghost v1 = gv;
        proof {
            assert(undefined_lists(tree@, old(local_types)@, type_param_entry1@, type_param_entry2@, fuel as nat)
                == Some((ok1, t1, v1)));
            assert(infos_view(infos@) == infos_view(old(infos)@) + gv);
        }
        let shared1 = type_param_entry1.has_trait_name(&TraitName::Shared);
        let shared2 = type_param_entry2.has_trait_name(&TraitName::Shared);
        let fun1 = type_param_entry1.has_trait_name(&TraitName::Fun);
        let fun2 = type_param_entry2.has_trait_name(&TraitName::Fun);
        if are_type_values1 && !are_type_values2 {
            if shared2 && !shared1 && !fun1 {
                if self.all_shared(&type_param_entry1.type_values, tree, local_types)?
                    == SharedFlag::NonShared {
                    proof {
                        lemma_extends_push(old(infos)@, infos@, MismatchedTypeInfo::SharedParam(local_type1));
                        lemma_contains_pushed(infos@, MismatchedTypeInfo::SharedParam(local_type1));
                    }
                    proof {
                        lemma_infos_view_push(infos@, MismatchedTypeInfo::SharedParam(local_type1));
                        lemma_infos_view_append(old(infos)@, gv, MismatchedTypeInfo::SharedParam(local_type1));
                        gv = gv.push(SInfo::SharedParam(local_type1));
                    }
                    infos.push(MismatchedTypeInfo::SharedParam(local_type1));
                    is_success = false;
                }
            }
        } else if !are_type_values1 && are_type_values2 {
            if shared1 && !shared2 && !fun2 {
                if self.all_shared(&type_param_entry2.type_values, tree, local_types)?
                    == SharedFlag::NonShared {
                    proof {
                        lemma_extends_push(old(infos)@, infos@, MismatchedTypeInfo::SharedParam(local_type2));
                        lemma_contains_pushed(infos@, MismatchedTypeInfo::SharedParam(local_type2));
                    }
                    proof {
                        lemma_infos_view_push(infos@, MismatchedTypeInfo::SharedParam(local_type2));
                        lemma_infos_view_append(old(infos)@, gv, MismatchedTypeInfo::SharedParam(local_type2));
                        gv = gv.push(SInfo::SharedParam(local_type2));
                    }
                    infos.push(MismatchedTypeInfo::SharedParam(local_type2));
                    is_success = false;
                }
            }
        }
        let ghost infos2 = infos@;
        let ghost ok2 = is_success;
        let ghost v2 = gv;
        proof {
            assert(undefined_checked(tree@, t1, ok1, v1, type_param_entry1@, local_type1, type_param_entry2@, local_type2)
                == Some((ok2, v2)));
            assert(local_types@ == t1);
        }
        if !shared1 && shared2 {
            if !self.set_shared_for_closures(&type_param_entry1.closure_local_types, tree, local_types, infos)? {
                is_success = false;
            }
        } else if shared1 && !shared2 {
            if !self.set_shared_for_closures(&type_param_entry2.closure_local_types, tree, local_types, infos)? {
                is_success = false;
            }
        }
        proof {
            lemma_extends_trans(old(infos)@, infos2, infos@);
            lemma_extends_contains(infos2, infos@);
            let c = undefined_closures(tree@, t1, type_param_entry1@, type_param_entry2@);
            if c is Some {
                let w = c.unwrap().2;
                assert(infos_view(infos@) == infos_view(infos2) + w);
                assert(infos_view(infos@) =~= infos_view(old(infos)@) + (v2 + w));
                assert(c.unwrap().1 == local_types@);
                assert(is_success == (ok2 && c.unwrap().0));
            }
        }
        if !is_success {
            return Ok(None);
        }
        let new_trait_names = crate::entries::union_trait_names(
            &type_param_entry1.trait_names,
            &type_param_entry2.trait_names,
        );
        let new_type_values = if type_param_entry1.type_values.len()
            > type_param_entry2.type_values.len() {
            crate::types::duplicate_type_values(&type_param_entry1.type_values)
        } else {
            crate::types::duplicate_type_values(&type_param_entry2.type_values)
        };
        let new_closure_local_types = crate::entries::union_local_types(
            &type_param_entry1.closure_local_types,
            &type_param_entry2.closure_local_types,
        );
        let new_number = match (type_param_entry1.number, type_param_entry2.number) {
            (Some(num1), Some(num2)) => Some(if num1 < num2 { num1 } else { num2 }),
            (Some(num1), None) => Some(num1),
            (None, Some(num2)) => Some(num2),
            (None, None) => None,
        };
        let mut new_type_param_entry = TypeParamEntry::new();
        new_type_param_entry.trait_names = crate::entries::duplicate_trait_names(&new_trait_names);
        new_type_param_entry.type_values = new_type_values;
        new_type_param_entry.closure_local_types = new_closure_local_types;
        new_type_param_entry.number = new_number;
        proof {
            use_type_invariant(self);
        }
        let ghost s_before = local_types@;
        let ghost owed = undefined_match_owed(type_param_entry1@, type_param_entry2@)
            || same_values_undefined_owed(type_param_entry1@, type_param_entry2@) || ground_undefined_owed(
            tree@,
            old(local_types)@,
            type_param_entry1@,
            type_param_entry2@,
            fuel as nat,
        );
        proof {
            if owed {
                assert(s_before == old(local_types)@);
                assert(infos@ == old(infos)@);
            }
        }
        proof {
            assert(new_type_param_entry@ == merged_param_entry(type_param_entry1@, type_param_entry2@));
        }
        proof {
            if is_bare(type_param_entry1@) || is_bare(type_param_entry2@) || type_param_entry1@.type_values
                == type_param_entry2@.type_values {
                assert(local_types@.eq_entries == old(local_types)@.eq_entries);
                assert(local_types@.eq_roots == old(local_types)@.eq_roots);
            }
        }
        self.join_param_classes(
            uniq_flag,
            local_type1,
            local_type2,
            new_type_param_entry,
            crate::types::DefinedFlag::Undefined,
            tree,
            local_types,
        )
    }

    /// Joins type parameters `local_type1` (undefined, of uniqueness `uniq_flag`) and
    /// `local_type2` into one class with entry `entry` and defined flag `defined_flag`, whose
    /// equation class stands in a non-unique lambda or in an equation of the defined type's type
    /// parameters where either did; gives the type parameters of the equation class the entry's
    /// trait names, and answers the sharing of the class.
    #[verifier::rlimit(100)]
    #[verifier::spinoff_prover]
    fn join_param_classes(
        &self,
        uniq_flag: UniqFlag,
        local_type1: LocalType,
        local_type2: LocalType,
        entry: TypeParamEntry,
        defined_flag: DefinedFlag,
        tree: &Tree,
        local_types: &mut LocalTypes,
    ) -> (r: FrontendInternalResult<Option<SharedFlag>>)
        requires
            old(local_types).wf(),
        ensures
            keeps_classes(old(local_types)@, final(local_types)@),
            keeps_eq_flags(old(local_types)@, final(local_types)@),
            final(local_types).wf(),
            final(local_types)@.len() == old(local_types)@.len(),
            owed_result(
                join_outcome(tree@, old(local_types)@, local_type1, local_type2, uniq_flag, entry@, defined_flag),
                r,
                final(local_types)@,
            ),
            r matches Ok(Some(_)) ==> final(local_types)@.roots[local_type1.idx as int]
                == final(local_types)@.roots[local_type2.idx as int] && final(local_types)@.eq_roots[local_type1.idx as int]
                == final(local_types)@.eq_roots[local_type2.idx as int],
            r matches Ok(Some(_)) ==> (final(local_types)@.entry_of(local_type1.idx as int) matches SEntry::Param(
                d,
                _,
                p,
                _,
            ) && d == defined_flag && p == entry@),
            r matches Ok(Some(_)) ==> class_flags_merged(
                old(local_types)@,
                final(local_types)@,
                local_type1,
                local_type2,
            ),
    {
        proof {
            local_types.lemma_wf();
            lemma_keeps_same_roots(local_types@, local_types@);
            use_type_invariant(self);
        }
        let ghost s_before = local_types@;
        let ghost e = entry@;
        let names = crate::entries::duplicate_trait_names(&entry.trait_names);
        let in_lambda1 = local_types.has_in_non_uniq_lambda(local_type1);
        let in_lambda2 = local_types.has_in_non_uniq_lambda(local_type2);
        let is_in_non_uniq_lambda = in_lambda1 || in_lambda2;
        let defined_eq1 = local_types.has_defined_type_param_eq(local_type1);
        let defined_eq2 = local_types.has_defined_type_param_eq(local_type2);
        let is_defined_type_param_eq = defined_eq1 || defined_eq2;
        local_types.set_type_param_entry(
            local_type1,
            self.empty_type_param_entry.duplicate(),
            crate::types::DefinedFlag::Undefined,
        );
        local_types.set_type_param_entry(
            local_type2,
            self.empty_type_param_entry.duplicate(),
            crate::types::DefinedFlag::Undefined,
        );
        let ghost s_pre_join = local_types@;
        match local_types.join_local_types(local_type1, local_type2) {
            Some((root_local_type, eq_root_local_type)) => {
                let ghost s_join = local_types@;
                local_types.set_type_param_entry(root_local_type, entry, defined_flag);
                let ghost s_root = local_types@;
                proof {
                    local_types.lemma_wf();
                    let er = eq_root_local_type.idx as int;
                    assert(s_pre_join.eq_entries == s_before.eq_entries && s_pre_join.eq_roots
                        == s_before.eq_roots);
                    assert(s_root.eq_entries == s_join.eq_entries && s_root.eq_roots == s_join.eq_roots);
                    assert(s_root.eq_roots[er] == er);
                    assert(s_root.eq_entry_of(er).is_in_non_uniq_lambda == is_in_non_uniq_lambda);
                    assert(s_root.eq_entry_of(er).is_defined == is_defined_type_param_eq);
                }
                local_types.set_in_non_uniq_lambda(eq_root_local_type, is_in_non_uniq_lambda);
                local_types.set_defined_type_param_eq(eq_root_local_type, is_defined_type_param_eq);
                let ghost s_flags = local_types@;
                proof {
                    assert(s_flags.eq_entries =~= s_root.eq_entries);
                    assert(s_flags == s_root);
                }
                self.set_trait_names_for_local_types(
                    local_type1,
                    local_type2,
                    eq_root_local_type,
                    &names,
                    local_types,
                )?;
                proof {
                    let i = s_flags.roots[local_type1.idx as int];
                    assert(local_types@.entries[i] == s_flags.entries[i] || local_types@.entries[i]
                        == with_trait_names(s_flags.entries[i], trait_names_view(names@)));
                }
                let shared_flag = self.shared_flag_for_type_value2(
                    &TypeValue::Param(uniq_flag, root_local_type),
                    None,
                    tree,
                    local_types,
                )?;
                Ok(Some(shared_flag))
            },
            None => Err(internal_error("match_local_type_entries_with_infos: can't join local types")),
        }
    }

    /// Matches an undefined type parameter with a defined one: their type values must match and
    /// the undefined one may require nothing (traits, equations, closures) that the defined one
    /// lacks; then they are joined under the defined entry.
    #[verifier::rlimit(100)]
    #[verifier::spinoff_prover]
    fn match_undefined_and_defined_params(
        &self,
        uniq_flag1: UniqFlag,
        type_param_entry1: &TypeParamEntry,
        local_type1: LocalType,
        uniq_flag2: UniqFlag,
        type_param_entry2: &TypeParamEntry,
        local_type2: LocalType,
        tree: &Tree,
        local_types: &mut LocalTypes,
        infos: &mut Vec<MismatchedTypeInfo>,
        fuel: usize,
    ) -> (r: FrontendInternalResult<Option<SharedFlag>>)
        requires
            old(local_types).wf(),
        ensures
            r matches Ok(Some(_)) ==> final(infos)@ == old(infos)@,
            keeps_classes(old(local_types)@, final(local_types)@),
            keeps_eq_flags(old(local_types)@, final(local_types)@),
            final(local_types).wf(),
            final(local_types)@.len() == old(local_types)@.len(),
            extends(old(infos)@, final(infos)@),
            r matches Ok(Some(_)) ==> uniq_flag1 == uniq_flag2,
            r matches Ok(Some(_)) ==> final(local_types)@.roots[local_type1.idx as int]
                == final(local_types)@.roots[local_type2.idx as int] && final(local_types)@.eq_roots[local_type1.idx as int]
                == final(local_types)@.eq_roots[local_type2.idx as int],
            r matches Ok(Some(_)) ==> traits_hold(
                tree@,
                SEntry::Param(DefinedFlag::Undefined, uniq_flag1, type_param_entry1@, local_type1),
                SEntry::Param(DefinedFlag::Defined, uniq_flag2, type_param_entry2@, local_type2),
            ),
            r matches Ok(Some(_)) ==> heads_can_match(
                SEntry::Param(DefinedFlag::Undefined, uniq_flag1, type_param_entry1@, local_type1),
                SEntry::Param(DefinedFlag::Defined, uniq_flag2, type_param_entry2@, local_type2),
            ),
            heads_mismatch(
                SEntry::Param(DefinedFlag::Undefined, uniq_flag1, type_param_entry1@, local_type1),
                SEntry::Param(DefinedFlag::Defined, uniq_flag2, type_param_entry2@, local_type2),
            ) ==> (r matches Ok(None)) && final(local_types)@ == old(local_types)@ && final(infos)@
                == old(infos)@,
            r is Ok && !heads_mismatch(
                SEntry::Param(DefinedFlag::Undefined, uniq_flag1, type_param_entry1@, local_type1),
                SEntry::Param(DefinedFlag::Defined, uniq_flag2, type_param_entry2@, local_type2),
            ) ==> defined_reasons(type_param_entry1@, local_type1, type_param_entry2@, local_type2, final(infos)@),
            r matches Ok(Some(_)) ==> (final(local_types)@.entry_of(local_type1.idx as int) matches SEntry::Param(
                DefinedFlag::Defined,
                _,
                p,
                _,
            ) && p == type_param_entry2@),
            r is Ok && !heads_mismatch(
                SEntry::Param(DefinedFlag::Undefined, uniq_flag1, type_param_entry1@, local_type1),
                SEntry::Param(DefinedFlag::Defined, uniq_flag2, type_param_entry2@, local_type2),
            ) && (is_bare(type_param_entry1@) || type_param_entry1@.type_values == type_param_entry2@.type_values)
                ==> bare_defined_reasons(
                old(local_types)@,
                local_type1,
                local_type2,
                final(infos)@,
            ),
            uniq_flag1 == uniq_flag2 && defined_match_owed(
                old(local_types)@,
                type_param_entry1@,
                local_type1,
                type_param_entry2@,
                local_type2,
            ) ==> (r is Err || r matches Ok(Some(_))),
            r matches Ok(Some(_)) && (is_bare(type_param_entry1@) || type_param_entry1@.type_values
                == type_param_entry2@.type_values) ==> class_flags_merged(
                old(local_types)@,
                final(local_types)@,
                local_type1,
                local_type2,
            ),
            uniq_flag1 == uniq_flag2 && defined_match_owed(
                old(local_types)@,
                type_param_entry1@,
                local_type1,
                type_param_entry2@,
                local_type2,
            ) ==> owed_result(
                join_outcome(
                    tree@,
                    old(local_types)@,
                    local_type1,
                    local_type2,
                    uniq_flag1,
                    type_param_entry2@,
                    DefinedFlag::Defined,
                ),
                r,
                final(local_types)@,
            ) && final(infos)@ == old(infos)@,
            uniq_flag1 == uniq_flag2 && same_values_defined_owed(
                old(local_types)@,
                type_param_entry1@,
                local_type1,
                type_param_entry2@,
                local_type2,
            ) ==> (r is Err || owed_result(
                join_outcome(
                    tree@,
                    old(local_types)@,
                    local_type1,
                    local_type2,
                    uniq_flag1,
                    type_param_entry2@,
                    DefinedFlag::Defined,
                ),
                r,
                final(local_types)@,
            )) && (r is Ok ==> final(infos)@ == old(infos)@),
            uniq_flag1 == uniq_flag2 && ground_defined_owed(
                tree@,
                old(local_types)@,
                type_param_entry1@,
                local_type1,
                type_param_entry2@,
                local_type2,
                fuel as nat,
            ) ==> owed_result(
                join_outcome(
                    tree@,
                    old(local_types)@,
                    local_type1,
                    local_type2,
                    uniq_flag1,
                    type_param_entry2@,
                    DefinedFlag::Defined,
                ),
                r,
                final(local_types)@,
            ) && final(infos)@ == old(infos)@,
            match_result(
                spec_match_defined(
                    tree@,
                    old(local_types)@,
                    uniq_flag1,
                    type_param_entry1@,
                    local_type1,
                    uniq_flag2,
                    type_param_entry2@,
                    local_type2,
                    fuel as nat,
                ),
                r,
                final(local_types)@,
                old(infos)@,
                final(infos)@,
            ),
        decreases fuel, 2nat,
    {
        proof {
            local_types.lemma_wf();
            lemma_keeps_same_roots(local_types@, local_types@);
        }
        proof {
            lemma_extends_refl(infos@);
            lemma_type_values_view(type_param_entry1.type_values@);
            lemma_type_values_view(type_param_entry2.type_values@);
        }
        if uniq_flag1 != uniq_flag2 {
            return Ok(None);
        }
        let uniq_flag = uniq_flag1;
        let are_type_values1 = !type_param_entry1.is_bare();
        let mut is_success = true;
        let ghost mut gv: Seq<SInfo> = Seq::empty();
        proof {
            assert(infos_view(infos@) =~= infos_view(old(infos)@) + gv);
        }
        if are_type_values1 {
            if type_param_entry1.type_values.len() != type_param_entry2.type_values.len() {
                return Ok(None);
            }
            let lists = self.match_type_value_lists(
                &type_param_entry1.type_values,
                &type_param_entry2.type_values,
                tree,
                local_types,
                infos,
                fuel,
            );
            proof {
                if lists is Ok {
                    gv = spec_match_lists(
                        tree@,
                        old(local_types)@,
                        type_param_entry1@.type_values,
                        type_param_entry2@.type_values,
                        fuel as nat,
                        type_param_entry1@.type_values.len(),
                    ).unwrap().3;
                }
            }
            let (ok, _) = lists?;
            if !ok {
                is_success = false;
            }
        }
        let ghost infos1 = infos@;
        let ghost t1 = local_types@;
        let ghost ok1 = is_success;
        let ghost v1 = gv;
        let ghost p1v = type_param_entry1@;
        let ghost p2v = type_param_entry2@;
        proof {
            assert(defined_lists(tree@, old(local_types)@, type_param_entry1@, type_param_entry2@, fuel as nat)
                == Some((ok1, t1, v1)));
            assert(infos_view(infos@) == infos_view(old(infos)@) + v1);
            assert(spec_missing_traits(p1v.trait_names, p2v, local_type1, local_type2, 0) =~= Seq::<SInfo>::empty());
            assert(infos_view(infos@) =~= infos_view(old(infos)@) + v1 + spec_missing_traits(
                p1v.trait_names,
                p2v,
                local_type1,
                local_type2,
                0,
            ));
        }
        let ghost names = type_param_entry1@.trait_names;
        let ghost owed = defined_match_owed(
            old(local_types)@,
            type_param_entry1@,
            local_type1,
            type_param_entry2@,
            local_type2,
        ) || same_values_defined_owed(
            old(local_types)@,
            type_param_entry1@,
            local_type1,
            type_param_entry2@,
            local_type2,
        ) || ground_defined_owed(
            tree@,
            old(local_types)@,
            type_param_entry1@,
            local_type1,
            type_param_entry2@,
            local_type2,
            fuel as nat,
        );
        let mut i: usize = 0;
        while i < type_param_entry1.trait_names.len()
            invariant
                owed && uniq_flag1 == uniq_flag2 ==> infos@ == old(infos)@,
                owed ==> is_success && defined_covers(type_param_entry1@, type_param_entry2@),
                local_types.wf(),
                local_types@.len() == old(local_types)@.len(),
                extends(old(infos)@, infos@),
                is_success ==> infos@ == old(infos)@,
                i <= type_param_entry1.trait_names@.len(),
                names == type_param_entry1@.trait_names,
                names.len() == type_param_entry1.trait_names@.len(),
                forall|j: int| 0 <= j < names.len() ==> #[trigger] names[j] == type_param_entry1.trait_names@[j]@,
                is_success ==> forall|j: int|
                    0 <= j < i ==> type_param_entry2@.trait_names.contains(#[trigger] names[j]),
                forall|j: int|
                    0 <= j < i && !type_param_entry2@.trait_names.contains(names[j]) ==> reports_param(
                        infos@,
                        local_type2,
                        #[trigger] names[j],
                        local_type1,
                    ),
                p1v == type_param_entry1@,
                p2v == type_param_entry2@,
                local_types@ == t1,
                infos_view(infos@) == infos_view(old(infos)@) + v1 + spec_missing_traits(
                    p1v.trait_names,
                    p2v,
                    local_type1,
                    local_type2,
                    i as nat,
                ),
                is_success == (ok1 && spec_missing_traits(p1v.trait_names, p2v, local_type1, local_type2, i as nat).len()
                    == 0),
            decreases type_param_entry1.trait_names@.len() - i,
        {
            let trait_name = &type_param_entry1.trait_names[i];
            let ghost pre = infos@;
            if !type_param_entry2.has_trait_name(trait_name) {
                let info = MismatchedTypeInfo::Param(local_type2, trait_name.duplicate(), local_type1);
                let ghost before = infos@;
                proof {
                    lemma_extends_push(old(infos)@, infos@, info);
                    lemma_extends_refl(before);
                    lemma_extends_push(before, before, info);
                }
                proof {
                    lemma_infos_view_push(infos@, info);
                }
                infos.push(info);
                proof {
                    lemma_reports_kept(before, infos@);
                    assert(param_info(infos@[before.len() as int], local_type2, names[i as int], local_type1));
                    let m = spec_missing_traits(p1v.trait_names, p2v, local_type1, local_type2, i as nat);
                    assert(!p2v.trait_names.contains(p1v.trait_names[i as int]));
                    assert(info_view(info) == SInfo::Param(local_type2, p1v.trait_names[i as int], local_type1));
                    assert(infos_view(infos@) =~= infos_view(old(infos)@) + v1 + m.push(info_view(info)));
                }
                is_success = false;
            } else {
                proof {
                    assert(p2v.trait_names.contains(p1v.trait_names[i as int]));
                }
            }
            i = i + 1;
        }
        let ghost infos_t = infos@;
        proof {
            lemma_extends_refl(infos_t);
        }
        let n = local_types.orig_eq_type_param_set().len();
        let ghost s_eq = local_types@;
        let ghost bare1 = is_bare(type_param_entry1@) || type_param_entry1@.type_values
            == type_param_entry2@.type_values;
        proof {
            if bare1 && uniq_flag1 == uniq_flag2 {
                assert(s_eq == old(local_types)@);
            }
        }
        let ghost m_all = spec_missing_traits(p1v.trait_names, p2v, local_type1, local_type2, p1v.trait_names.len());
        proof {
            assert(i as nat == p1v.trait_names.len());
            assert(spec_eq_reasons(s_eq, local_type1, local_type2, 0) =~= Seq::<SInfo>::empty());
            assert(infos_view(infos@) =~= infos_view(old(infos)@) + v1 + m_all + spec_eq_reasons(
                s_eq,
                local_type1,
                local_type2,
                0,
            ));
            assert(m_all + spec_eq_reasons(s_eq, local_type1, local_type2, 0) =~= m_all);
        }
        let mut j: usize = 0;
        while j < n
            invariant
                p1v == type_param_entry1@,
                p2v == type_param_entry2@,
                s_eq == t1,
                m_all == spec_missing_traits(p1v.trait_names, p2v, local_type1, local_type2, p1v.trait_names.len()),
                infos_view(infos@) == infos_view(old(infos)@) + v1 + m_all + spec_eq_reasons(
                    s_eq,
                    local_type1,
                    local_type2,
                    j as nat,
                ),
                is_success == (ok1 && (m_all + spec_eq_reasons(s_eq, local_type1, local_type2, j as nat)).len() == 0),
                owed && uniq_flag1 == uniq_flag2 ==> infos@ == old(infos)@,
                owed ==> is_success && defined_covers(type_param_entry1@, type_param_entry2@) && s_eq
                    == old(local_types)@,
                owed ==> forall|x: int|
                    0 <= x < old(local_types)@.orig.len() ==> !(#[trigger] in_eq_class(
                        old(local_types)@,
                        local_type1,
                        x,
                    ) && !in_eq_class(old(local_types)@, local_type2, x)),
                local_types.wf(),
                local_types@.len() == old(local_types)@.len(),
                extends(old(infos)@, infos@),
                is_success ==> infos@ == old(infos)@,
                j <= n,
                n == s_eq.orig.len(),
                local_types@ == s_eq,
                names == type_param_entry1@.trait_names,
                is_success ==> forall|x: int|
                    0 <= x < names.len() ==> type_param_entry2@.trait_names.contains(#[trigger] names[x]),
                extends(infos_t, infos@),
                forall|x: int|
                    0 <= x < j && in_eq_class(s_eq, local_type1, x) && !in_eq_class(s_eq, local_type2, x)
                        ==> #[trigger] infos@.contains(eq_info(local_type1, x, local_type2)),
                is_success ==> forall|x: int|
                    0 <= x < j ==> !(#[trigger] in_eq_class(s_eq, local_type1, x) && !in_eq_class(
                        s_eq,
                        local_type2,
                        x,
                    )),
            decreases n - j,
        {
            proof {
                if owed {
                    assert(!(in_eq_class(old(local_types)@, local_type1, j as int) && !in_eq_class(
                        old(local_types)@,
                        local_type2,
                        j as int,
                    )));
                }
            }
            let local_type = LocalType::new(j);
            if !local_types.has_eq_type_params(local_type2, local_type) {
                if local_types.has_eq_type_params(local_type1, local_type) {
                    let info = MismatchedTypeInfo::Eq(local_type1, local_type, local_type2);
                    let ghost before = infos@;
                    proof {
                        lemma_extends_push(old(infos)@, infos@, info);
                        lemma_extends_push(infos_t, infos@, info);
                    }
                    proof {
                        lemma_infos_view_push(infos@, info);
                    }
                    infos.push(info);
                    proof {
                        lemma_contains_pushed(before, info);
                        assert(before.push(info) == infos@);
                        assert(info == eq_info(local_type1, j as int, local_type2));
                        let e = spec_eq_reasons(s_eq, local_type1, local_type2, j as nat);
                        assert(info_view(info) == SInfo::Eq(local_type1, LocalType { idx: j }, local_type2));
                        assert(spec_eq_reasons(s_eq, local_type1, local_type2, (j + 1) as nat) == e.push(info_view(info)));
                        assert(infos_view(infos@) =~= infos_view(old(infos)@) + v1 + m_all + e.push(info_view(info)));
                        assert((m_all + e.push(info_view(info))).len() > 0);
                    }
                    is_success = false;
                }
            }
            j = j + 1;
        }
        let ghost infos_e = infos@;
        let ghost e_all = spec_eq_reasons(s_eq, local_type1, local_type2, s_eq.orig.len());
        proof {
            assert(j as nat == s_eq.orig.len());
            assert(spec_no_closures(p1v.closure_local_types, p2v, local_type2, 0) =~= Seq::<SInfo>::empty());
            assert(infos_view(infos@) =~= infos_view(old(infos)@) + v1 + (m_all + e_all) + spec_no_closures(
                p1v.closure_local_types,
                p2v,
                local_type2,
                0,
            ));
            assert(m_all + e_all + spec_no_closures(p1v.closure_local_types, p2v, local_type2, 0) =~= m_all + e_all);
        }
        let mut k: usize = 0;
        while k < type_param_entry1.closure_local_types.len()
            invariant
                owed && uniq_flag1 == uniq_flag2 ==> infos@ == old(infos)@,
                owed ==> is_success && defined_covers(type_param_entry1@, type_param_entry2@),
                local_types.wf(),
                local_types@.len() == old(local_types)@.len(),
                extends(old(infos)@, infos@),
                is_success ==> infos@ == old(infos)@,
                k <= type_param_entry1.closure_local_types@.len(),
                names == type_param_entry1@.trait_names,
                is_success ==> forall|x: int|
                    0 <= x < names.len() ==> type_param_entry2@.trait_names.contains(#[trigger] names[x]),
                extends(infos_t, infos@),
                is_success ==> forall|x: int|
                    0 <= x < k ==> type_param_entry2@.closure_local_types.contains(
                        #[trigger] type_param_entry1@.closure_local_types[x],
                    ),
                forall|x: int|
                    0 <= x < k && !type_param_entry2@.closure_local_types.contains(
                        type_param_entry1@.closure_local_types[x],
                    ) ==> reports_no_closure(
                        infos@,
                        #[trigger] type_param_entry1@.closure_local_types[x],
                        local_type2,
                    ),
                forall|y: MismatchedTypeInfo| infos_e.contains(y) ==> #[trigger] infos@.contains(y),
                is_success ==> forall|x: int|
                    0 <= x < n ==> !(#[trigger] in_eq_class(s_eq, local_type1, x) && !in_eq_class(
                        s_eq,
                        local_type2,
                        x,
                    )),
                p1v == type_param_entry1@,
                p2v == type_param_entry2@,
                local_types@ == t1,
                infos_view(infos@) == infos_view(old(infos)@) + v1 + (m_all + e_all) + spec_no_closures(
                    p1v.closure_local_types,
                    p2v,
                    local_type2,
                    k as nat,
                ),
                is_success == (ok1 && (m_all + e_all + spec_no_closures(
                    p1v.closure_local_types,
                    p2v,
                    local_type2,
                    k as nat,
                )).len() == 0),
            decreases type_param_entry1.closure_local_types@.len() - k,
        {
            proof {
                if owed {
                    assert(type_param_entry2@.closure_local_types.contains(
                        type_param_entry1@.closure_local_types[k as int],
                    ));
                }
            }
            let closure_local_type = type_param_entry1.closure_local_types[k];
            if !crate::entries::contains_local_type(
                &type_param_entry2.closure_local_types,
                closure_local_type,
            ) {
                let info = MismatchedTypeInfo::NoClosure(closure_local_type, local_type2);
                let ghost before = infos@;
                proof {
                    lemma_extends_push(old(infos)@, infos@, info);
                    lemma_extends_push(infos_t, infos@, info);
                    lemma_extends_refl(before);
                    lemma_extends_push(before, before, info);
                }
                proof {
                    lemma_infos_view_push(infos@, info);
                }
                infos.push(info);
                proof {
                    lemma_reports_kept(before, infos@);
                    assert(no_closure_info(infos@[before.len() as int], closure_local_type, local_type2));
                    lemma_contains_pushed(before, info);
                    assert(before.push(info) == infos@);
                    let c = spec_no_closures(p1v.closure_local_types, p2v, local_type2, k as nat);
                    assert(p1v.closure_local_types[k as int] == closure_local_type);
                    assert(info_view(info) == SInfo::NoClosure(closure_local_type, local_type2));
                    assert(infos_view(infos@) =~= infos_view(old(infos)@) + v1 + (m_all + e_all) + c.push(info_view(info)));
                    assert((m_all + e_all + c.push(info_view(info))).len() > 0);
                }
                is_success = false;
            } else {
                proof {
                    assert(p1v.closure_local_types[k as int] == closure_local_type);
                }
            }
            k = k + 1;
        }
        proof {
            let c_all = spec_no_closures(p1v.closure_local_types, p2v, local_type2, p1v.closure_local_types.len());
            assert(k as nat == p1v.closure_local_types.len());
            assert(defined_reasons_seq(t1, p1v, local_type1, p2v, local_type2) == m_all + e_all + c_all);
            assert(infos_view(infos@) =~= infos_view(old(infos)@) + v1 + (m_all + e_all + c_all));
            if ok1 && (m_all + e_all + c_all).len() == 0 {
                assert(infos_view(infos@) =~= infos_view(old(infos)@) + v1);
            }
            assert(infos_view(infos@) =~= infos_view(old(infos)@) + (v1 + (m_all + e_all + c_all)));
            assert(local_types@ == t1);
            assert(is_success == (ok1 && (m_all + e_all + c_all).len() == 0));
            assert(spec_match_defined(
                tree@,
                old(local_types)@,
                uniq_flag1,
                type_param_entry1@,
                local_type1,
                uniq_flag2,
                type_param_entry2@,
                local_type2,
                fuel as nat,
            ) == defined_tail(tree@, t1, ok1, v1, uniq_flag1, p1v, local_type1, p2v, local_type2));
        }
        proof {
            lemma_reports_kept(infos_t, infos@);
        }
        if !is_success {
            return Ok(None);
        }
        proof {
            use_type_invariant(self);
        }
        let ghost s_before = local_types@;
        proof {
            if owed && uniq_flag1 == uniq_flag2 {
                assert(s_before == old(local_types)@);
                assert(infos@ == old(infos)@);
            }
        }
        proof {
            if is_bare(type_param_entry1@) || type_param_entry1@.type_values == type_param_entry2@.type_values {
                assert(local_types@.eq_entries == old(local_types)@.eq_entries);
                assert(local_types@.eq_roots == old(local_types)@.eq_roots);
            }
        }
        self.join_param_classes(
            uniq_flag,
            local_type1,
            local_type2,
            type_param_entry2.duplicate(),
            crate::types::DefinedFlag::Defined,
            tree,
            local_types,
        )
    }
}

impl TypeMatcher {
    /// Checks that a type satisfies trait `trait_name`, which parameter `local_type1` requires;
    /// adds the reason and answers false when it does not.
    fn check_trait_for_type(
        &self,
        trait_name: &TraitName,
        type_value2: &TypeValue,
        type_value_name2: &TypeValueName,
        shared_flag: SharedFlag,
        local_type1: LocalType,
        tree: &Tree,
        infos: &mut Vec<MismatchedTypeInfo>,
    ) -> (r: FrontendInternalResult<bool>)
        requires
            type_value2@ matches STypeValue::Type(_, n, _) && n == type_value_name2@,
        ensures
            extends(old(infos)@, final(infos)@),
            match r {
                Ok(b) => trait_satisfied(tree@, trait_name@, type_value2@, shared_flag) == Some(b),
                Err(_) => trait_satisfied(tree@, trait_name@, type_value2@, shared_flag) is None,
            },
            r matches Ok(false) ==> reports_type(
                final(infos)@,
                stv_type_name(type_value2@).unwrap(),
                trait_name@,
                local_type1,
            ),
            r matches Ok(true) ==> final(infos)@ == old(infos)@,
            r matches Ok(false) ==> infos_view(final(infos)@) == infos_view(old(infos)@).push(
                SInfo::Type(stv_type_name(type_value2@).unwrap(), trait_name@, local_type1),
            ),
    {
        proof {
            lemma_extends_refl(infos@);
        }
        let head_name = match crate::env::type_name_of(type_value2) {
            Some(tmp_type_name) => tmp_type_name,
            None => {
                return Err(internal_error("no type name"));
            },
        };
        let ok = match trait_name {
            TraitName::Shared => shared_flag != SharedFlag::NonShared,
            TraitName::Fun => match type_value_name2 {
                TypeValueName::Fun => true,
                _ => false,
            },
            TraitName::Name(ident) => match tree.trait1(ident) {
                Some(trait1) => match trait1.has_impl(&head_name) {
                    Some(true) => true,
                    Some(false) => match head_name {
                        TypeName::Array(Some(_)) => {
                            match trait1.has_impl(&TypeName::Array(None)) {
                                Some(b) => b,
                                None => {
                                    return Err(internal_error("no trait variables"));
                                },
                            }
                        },
                        _ => false,
                    },
                    None => {
                        return Err(internal_error("no trait variables"));
                    },
                },
                None => {
                    return Err(internal_error("no trait"));
                },
            },
        };
        if !ok {
            let info = MismatchedTypeInfo::Type(head_name, trait_name.duplicate(), local_type1);
            proof {
                lemma_extends_push(old(infos)@, infos@, info);
            }
            proof {
                lemma_infos_view_push(infos@, info);
            }
            infos.push(info);
            proof {
                let k = infos@.len() - 1;
                assert(type_info(infos@[k], stv_type_name(type_value2@).unwrap(), trait_name@, local_type1));
            }
        }
        Ok(ok)
    }

    /// Checks each trait of `trait_names`, which the type parameter `local_type1` requires,
    /// against a type of sharing `shared_flag` in turn (see `check_trait_for_type`); answers
    /// whether all hold.
    fn check_traits_for_type(
        &self,
        trait_names: &Vec<TraitName>,
        type_value2: &TypeValue,
        type_value_name2: &TypeValueName,
        shared_flag: SharedFlag,
        local_type1: LocalType,
        tree: &Tree,
        infos: &mut Vec<MismatchedTypeInfo>,
    ) -> (r: FrontendInternalResult<bool>)
        requires
            type_value2@ matches STypeValue::Type(_, n, _) && n == type_value_name2@,
        ensures
            extends(old(infos)@, final(infos)@),
            match spec_trait_reasons(
                tree@,
                trait_names_view(trait_names@),
                type_value2@,
                shared_flag,
                local_type1,
                trait_names@.len(),
            ) {
                Some(v) => r matches Ok(b) && b == (v.len() == 0) && infos_view(final(infos)@) == infos_view(old(infos)@)
                    + v,
                None => r is Err,
            },
            r matches Ok(true) ==> final(infos)@ == old(infos)@,
            r matches Ok(true) ==> forall|j: int|
                0 <= j < trait_names@.len() ==> #[trigger] trait_satisfied(
                    tree@,
                    trait_names_view(trait_names@)[j],
                    type_value2@,
                    shared_flag,
                ) == Some(true),
            r is Ok ==> forall|j: int|
                0 <= j < trait_names@.len() && trait_satisfied(
                    tree@,
                    trait_names_view(trait_names@)[j],
                    type_value2@,
                    shared_flag,
                ) == Some(false) ==> reports_type(
                    final(infos)@,
                    stv_type_name(type_value2@).unwrap(),
                    #[trigger] trait_names_view(trait_names@)[j],
                    local_type1,
                ),
            (forall|j: int|
                0 <= j < trait_names@.len() ==> #[trigger] trait_satisfied(
                    tree@,
                    trait_names_view(trait_names@)[j],
                    type_value2@,
                    shared_flag,
                ) == Some(true)) ==> (r matches Ok(true)) && final(infos)@ == old(infos)@,
    {
        proof {
            lemma_extends_refl(infos@);
        }
        let ghost names = trait_names_view(trait_names@);
        let mut ok = true;
        let mut i: usize = 0;
        proof {
            assert(infos_view(infos@) =~= infos_view(old(infos)@) + Seq::<SInfo>::empty());
        }
        while i < trait_names.len()
            invariant
                names == trait_names_view(trait_names@),
                names.len() == trait_names@.len(),
                i <= trait_names@.len(),
                type_value2@ matches STypeValue::Type(_, n, _) && n == type_value_name2@,
                extends(old(infos)@, infos@),
                spec_trait_reasons(tree@, names, type_value2@, shared_flag, local_type1, i as nat) matches Some(v)
                    && infos_view(infos@) == infos_view(old(infos)@) + v && ok == (v.len() == 0),
                ok ==> infos@ == old(infos)@,
                ok ==> forall|j: int|
                    0 <= j < i ==> #[trigger] trait_satisfied(tree@, names[j], type_value2@, shared_flag) == Some(true),
                forall|j: int|
                    0 <= j < i && trait_satisfied(tree@, names[j], type_value2@, shared_flag) == Some(false)
                        ==> reports_type(infos@, stv_type_name(type_value2@).unwrap(), #[trigger] names[j], local_type1),
                (forall|j: int|
                    0 <= j < names.len() ==> #[trigger] trait_satisfied(tree@, names[j], type_value2@, shared_flag)
                        == Some(true)) ==> ok,
            decreases trait_names@.len() - i,
        {
            let ghost before = infos@;
            let ghost vp = spec_trait_reasons(tree@, names, type_value2@, shared_flag, local_type1, i as nat).unwrap();
            proof {
                assert(names[i as int] == trait_names@[i as int]@);
            }
            let checked = self.check_trait_for_type(
                &trait_names[i],
                type_value2,
                type_value_name2,
                shared_flag,
                local_type1,
                tree,
                infos,
            );
            proof {
                if checked is Err {
                    lemma_trait_reasons_none(
                        tree@,
                        names,
                        type_value2@,
                        shared_flag,
                        local_type1,
                        (i + 1) as nat,
                        names.len(),
                    );
                } else if checked matches Ok(false) {
                    assert(infos_view(infos@) =~= infos_view(old(infos)@) + vp.push(
                        SInfo::Type(stv_type_name(type_value2@).unwrap(), names[i as int], local_type1),
                    ));
                }
                lemma_extends_trans(old(infos)@, before, infos@);
                lemma_reports_kept(before, infos@);
            }
            if !checked? {
                ok = false;
            }
            i = i + 1;
        }
        Ok(ok)
    }

    /// Matches an undefined type parameter with a type: the parameter's type values must match
    /// the type's arguments and the type must satisfy its traits; then the parameter is bound to
    /// the type.
    #[verifier::rlimit(100)]
    #[verifier::spinoff_prover]
    fn match_undefined_param_and_type(
        &self,
        uniq_flag1: UniqFlag,
        type_param_entry1: &TypeParamEntry,
        local_type1: LocalType,
        type_value2: &TypeValue,
        tree: &Tree,
        local_types: &mut LocalTypes,
        infos: &mut Vec<MismatchedTypeInfo>,
        fuel: usize,
    ) -> (r: FrontendInternalResult<Option<SharedFlag>>)
        requires
            old(local_types).wf(),
        ensures
            r matches Ok(Some(_)) ==> final(infos)@ == old(infos)@,
            keeps_classes(old(local_types)@, final(local_types)@),
            keeps_eq_flags(old(local_types)@, final(local_types)@),
            final(local_types).wf(),
            final(local_types)@.len() == old(local_types)@.len(),
            extends(old(infos)@, final(infos)@),
            r matches Ok(Some(_)) ==> type_value2@ matches STypeValue::Type(u2, _, _) && !(uniq_flag1
                == UniqFlag::Uniq && u2 == UniqFlag::NonUniq),
            (r matches Ok(Some(_))) && local_type1.idx < old(local_types)@.len()
                ==> final(local_types)@.entry_of(local_type1.idx as int) == SEntry::Type(type_value2@),
            r matches Ok(Some(_)) ==> traits_hold(
                tree@,
                SEntry::Param(DefinedFlag::Undefined, uniq_flag1, type_param_entry1@, local_type1),
                SEntry::Type(type_value2@),
            ),
            r matches Ok(Some(_)) ==> heads_can_match(
                SEntry::Param(DefinedFlag::Undefined, uniq_flag1, type_param_entry1@, local_type1),
                SEntry::Type(type_value2@),
            ),
            heads_mismatch(
                SEntry::Param(DefinedFlag::Undefined, uniq_flag1, type_param_entry1@, local_type1),
                SEntry::Type(type_value2@),
            ) ==> (r matches Ok(None)) && final(local_types)@ == old(local_types)@ && final(infos)@
                == old(infos)@,
            r is Ok && !heads_mismatch(
                SEntry::Param(DefinedFlag::Undefined, uniq_flag1, type_param_entry1@, local_type1),
                SEntry::Type(type_value2@),
            ) ==> type_reasons(tree@, type_param_entry1@, local_type1, type_value2@, final(infos)@),
            r is Ok && !heads_mismatch(
                SEntry::Param(DefinedFlag::Undefined, uniq_flag1, type_param_entry1@, local_type1),
                SEntry::Type(type_value2@),
            ) && ground_type_args(type_param_entry1@, type_value2@) ==> ground_type_reasons(
                tree@,
                old(local_types)@,
                type_param_entry1@,
                local_type1,
                type_value2@,
                fuel as nat,
                final(infos)@,
            ),
            r is Ok && !heads_mismatch(
                SEntry::Param(DefinedFlag::Undefined, uniq_flag1, type_param_entry1@, local_type1),
                SEntry::Type(type_value2@),
            ) && is_bare(type_param_entry1@) ==> bare_type_reasons(
                tree@,
                old(local_types)@,
                type_param_entry1@,
                local_type1,
                type_value2@,
                final(infos)@,
            ),
            r is Ok && !heads_mismatch(
                SEntry::Param(DefinedFlag::Undefined, uniq_flag1, type_param_entry1@, local_type1),
                SEntry::Type(type_value2@),
            ) ==> type_eq_reason(old(local_types)@, local_type1, final(infos)@),
            !heads_mismatch(
                SEntry::Param(DefinedFlag::Undefined, uniq_flag1, type_param_entry1@, local_type1),
                SEntry::Type(type_value2@),
            ) && type_value2@ is Type && bare_type_match_owed(
                tree@,
                old(local_types)@,
                type_param_entry1@,
                local_type1,
                type_value2@,
            ) ==> (r is Err || r matches Ok(Some(_))),
            !heads_mismatch(
                SEntry::Param(DefinedFlag::Undefined, uniq_flag1, type_param_entry1@, local_type1),
                SEntry::Type(type_value2@),
            ) && type_value2@ is Type && local_type1.idx < old(local_types)@.len() && bare_type_match_owed(
                tree@,
                old(local_types)@,
                type_param_entry1@,
                local_type1,
                type_value2@,
            ) ==> owed_result(
                bind_outcome(tree@, old(local_types)@, local_type1, type_value2@),
                r,
                final(local_types)@,
            ) && final(infos)@ == old(infos)@,
            r matches Ok(Some(g)) ==> (has_trait(type_param_entry1@, STraitName::Shared) ==> g == SharedFlag::Shared),
            r matches Ok(Some(_)) ==> !(local_type1.idx < old(local_types)@.len() && old(local_types)@.eq_entry_of(
                local_type1.idx as int,
            ).is_defined),
            r matches Ok(Some(g)) ==> (is_bare(type_param_entry1@) ==> (spec_flags(
                tree@,
                old(local_types)@,
                type_value2@,
                None,
                Self::fuel(),
            ) matches Some((_, f)) && f == g)),
            !heads_mismatch(
                SEntry::Param(DefinedFlag::Undefined, uniq_flag1, type_param_entry1@, local_type1),
                SEntry::Type(type_value2@),
            ) && same_values_type_owed(
                tree@,
                old(local_types)@,
                uniq_flag1,
                type_param_entry1@,
                local_type1,
                type_value2@,
            ) ==> (r is Err || (r matches Ok(Some(_)) && final(local_types)@ == with_type_value(
                old(local_types)@,
                local_type1,
                type_value2@,
            ))) && (r is Ok ==> final(infos)@ == old(infos)@),
            !heads_mismatch(
                SEntry::Param(DefinedFlag::Undefined, uniq_flag1, type_param_entry1@, local_type1),
                SEntry::Type(type_value2@),
            ) && ground_type_owed(
                tree@,
                old(local_types)@,
                uniq_flag1,
                type_param_entry1@,
                local_type1,
                type_value2@,
                fuel as nat,
            ) ==> (r matches Ok(Some(g)) && ground_bind_flag(
                tree@,
                old(local_types)@,
                type_param_entry1@,
                type_value2@,
                fuel as nat,
            ) == Some(g)) && final(local_types)@ == with_type_value(old(local_types)@, local_type1, type_value2@)
                && final(infos)@ == old(infos)@,
            match_result(
                spec_match_type(
                    tree@,
                    old(local_types)@,
                    uniq_flag1,
                    type_param_entry1@,
                    local_type1,
                    type_value2@,
                    fuel as nat,
                ),
                r,
                final(local_types)@,
                old(infos)@,
                final(infos)@,
            ),
        decreases fuel, 2nat,
    {
        proof {
            local_types.lemma_wf();
            lemma_keeps_same_roots(local_types@, local_types@);
        }
        proof {
            lemma_extends_refl(infos@);
        }
        match type_value2 {
            TypeValue::Param(_, _) => {
                proof {
                    assert(spec_match_type(tree@, old(local_types)@, uniq_flag1, type_param_entry1@, local_type1, type_value2@, fuel as nat) is None);
                }
                Err(internal_error("match_local_type_entries_with_infos: type parameter in local type entry"))
            },
            TypeValue::Type(uniq_flag2, type_value_name2, type_values2) => {
                proof {
                    lemma_type_values_view(type_param_entry1.type_values@);
                    lemma_type_values_view(type_values2@);
                }
                let ghost spec_m = spec_match_type(
                    tree@,
                    old(local_types)@,
                    uniq_flag1,
                    type_param_entry1@,
                    local_type1,
                    type_value2@,
                    fuel as nat,
                );
                if uniq_flag1 == UniqFlag::Uniq && *uniq_flag2 == UniqFlag::NonUniq {
                    proof {
                        lemma_no_new_infos(old(infos)@, infos@);
                        assert(spec_m == Some((None::<SharedFlag>, old(local_types)@, Seq::<SInfo>::empty()))) by {
                            reveal(type_after_lists);
                        }
                    }
                    return Ok(None);
                }
                let ghost owed3 = ground_type_owed(
                    tree@,
                    old(local_types)@,
                    uniq_flag1,
                    type_param_entry1@,
                    local_type1,
                    type_value2@,
                    fuel as nat,
                );
                proof {
                    assert(type_value2@ == STypeValue::Type(
                        type_value2@->Type_0,
                        type_value_name2@,
                        type_values_view(type_values2@),
                    ));
                }
                let are_type_values1 = !type_param_entry1.is_bare();
                let mut type_arg_shared_flag = SharedFlag::Shared;
                let mut is_success = true;
                let ghost mut gv: Seq<SInfo> = Seq::empty();
                proof {
                    lemma_no_new_infos(old(infos)@, infos@);
                }
                if are_type_values1 {
                    if type_param_entry1.type_values.len() != type_values2.len() {
                        proof {
                            assert(spec_m == Some((None::<SharedFlag>, old(local_types)@, Seq::<SInfo>::empty()))) by {
                                reveal(type_after_lists);
                            }
                        }
                        return Ok(None);
                    }
                    let lists = self.match_type_value_lists(
                        &type_param_entry1.type_values,
                        type_values2,
                        tree,
                        local_types,
                        infos,
                        fuel,
                    );
                    proof {
                        if lists is Ok {
                            gv = spec_match_lists(
                                tree@,
                                old(local_types)@,
                                type_param_entry1@.type_values,
                                type_values_view(type_values2@),
                                fuel as nat,
                                type_values2@.len(),
                            ).unwrap().3;
                        } else {
                            assert(spec_m is None) by {
                                reveal(type_after_lists);
                            }
                        }
                    }
                    let (ok, f) = lists?;
                    type_arg_shared_flag = f;
                    if !ok {
                        is_success = false;
                    }
                }
                let ghost s_checked = local_types@;
                let ghost ok1 = is_success;
                let ghost f1 = type_arg_shared_flag;
                let ghost v1 = gv;
                let ghost p1v = type_param_entry1@;
                proof {
                    assert(spec_m == type_tail(tree@, s_checked, ok1, f1, v1, p1v, local_type1, type_value2@)) by {
                        reveal(type_after_lists);
                    }
                }
                let ghost owed2 = same_values_type_owed(
                    tree@,
                    old(local_types)@,
                    uniq_flag1,
                    type_param_entry1@,
                    local_type1,
                    type_value2@,
                );
                proof {
                    if owed2 {
                        assert(s_checked == old(local_types)@);
                        assert(infos@ == old(infos)@);
                    }
                    if owed3 {
                        assert(s_checked == old(local_types)@);
                        assert(infos@ == old(infos)@);
                        assert(is_success);
                    }
                }
                proof {
                    if !are_type_values1 {
                        assert(s_checked == old(local_types)@);
                    }
                }
                let sf = if are_type_values1 {
                    self.shared_flag_for_type_value2(type_value2, Some(type_arg_shared_flag), tree, local_types)
                } else {
                    self.shared_flag_for_type_value2(type_value2, None, tree, local_types)
                };
                proof {
                    if sf is Err {
                        assert(type_tail(tree@, s_checked, ok1, f1, v1, p1v, local_type1, type_value2@) is None) by {
                            reveal(type_tail);
                        }
                    }
                }
                let shared_flag = sf?;
                proof {
                    if ground_type_args(type_param_entry1@, type_value2@) {
                        assert(ground_arg_flag(
                            tree@,
                            old(local_types)@,
                            type_param_entry1@,
                            type_value2@,
                            fuel as nat,
                        ) == Some(shared_flag));
                    }
                    if owed3 {
                        assert(ground_bind_flag(
                            tree@,
                            old(local_types)@,
                            type_param_entry1@,
                            type_value2@,
                            fuel as nat,
                        ) == Some(shared_flag));
                    }
                }
                let ghost infos1 = infos@;
                let ghost names = type_param_entry1@.trait_names;
                let ghost owed = bare_type_match_owed(
                    tree@,
                    old(local_types)@,
                    type_param_entry1@,
                    local_type1,
                    type_value2@,
                );
                proof {
                    if owed || owed2 || owed3 {
                        assert forall|j: int| 0 <= j < names.len() implies #[trigger] trait_satisfied(
                            tree@,
                            names[j],
                            type_value2@,
                            shared_flag,
                        ) == Some(true) by {
                            if names[j] == STraitName::Shared {
                                assert(names.contains(STraitName::Shared));
                            }
                            assert(trait_satisfied(tree@, names[j], type_value2@, SharedFlag::Shared) == Some(true));
                        }
                    }
                }
                let ghost infos_t0 = infos@;
                let checked = self.check_traits_for_type(
                    &type_param_entry1.trait_names,
                    type_value2,
                    type_value_name2,
                    shared_flag,
                    local_type1,
                    tree,
                    infos,
                );
                proof {
                    if checked is Err {
                        assert(type_tail(tree@, s_checked, ok1, f1, v1, p1v, local_type1, type_value2@) is None) by {
                            reveal(type_tail);
                        }
                    }
                }
                if !checked? {
                    is_success = false;
                }
                proof {
                    assert forall|j: int|
                        0 <= j < names.len() && names[j] != STraitName::Shared && is_success implies #[trigger] trait_satisfied(
                        tree@,
                        names[j],
                        type_value2@,
                        SharedFlag::Shared,
                    ) == Some(true) by {
                        assert(trait_satisfied(tree@, names[j], type_value2@, shared_flag) == Some(true));
                    }
                }
                let ghost infos2 = infos@;
                proof {
                    lemma_extends_refl(infos2);
                }
                let ghost v2 = spec_trait_reasons(tree@, names, type_value2@, shared_flag, local_type1, names.len()).unwrap();
                let ghost b2 = is_success;
                let ghost infos_c0 = infos@;
                if !type_param_entry1.has_trait_name(&TraitName::Shared) && shared_flag
                    == SharedFlag::Shared {
                    let closures = self.set_shared_for_closures(
                        &type_param_entry1.closure_local_types,
                        tree,
                        local_types,
                        infos,
                    );
                    proof {
                        if closures is Err {
                            assert(type_tail(tree@, s_checked, ok1, f1, v1, p1v, local_type1, type_value2@) is None) by {
                                reveal(type_tail);
                            }
                        }
                    }
                    if !closures? {
                        is_success = false;
                    }
                    proof {
                        lemma_extends_trans(old(infos)@, infos2, infos@);
                    }
                } else {
                    proof {
                        lemma_no_new_infos(infos_c0, infos@);
                    }
                }
                let ghost t3 = local_types@;
                let ghost infos_l0 = infos@;
                let lambda = local_types.has_in_non_uniq_lambda(local_type1);
                let defined = local_types.has_defined_type_param_eq(local_type1);
                if lambda && shared_flag
                    == SharedFlag::NonShared {
                    proof {
                        lemma_extends_push(old(infos)@, infos@, MismatchedTypeInfo::InNonUniqLambda);
                        lemma_extends_push(infos2, infos@, MismatchedTypeInfo::InNonUniqLambda);
                    }
                    proof {
                        lemma_infos_view_push(infos@, MismatchedTypeInfo::InNonUniqLambda);
                    }
                    infos.push(MismatchedTypeInfo::InNonUniqLambda);
                    proof {
                        lemma_contains_pushed(infos@.drop_last(), MismatchedTypeInfo::InNonUniqLambda);
                        assert(infos@.drop_last().push(MismatchedTypeInfo::InNonUniqLambda) == infos@);
                    }
                    is_success = false;
                }
                let ghost infos3 = infos@;
                let ghost infos4 = infos@;
                if defined {
                    proof {
                        lemma_extends_push(old(infos)@, infos@, MismatchedTypeInfo::DefinedTypeParamEq);
                        lemma_extends_push(infos2, infos@, MismatchedTypeInfo::DefinedTypeParamEq);
                    }
                    proof {
                        lemma_infos_view_push(infos@, MismatchedTypeInfo::DefinedTypeParamEq);
                    }
                    infos.push(MismatchedTypeInfo::DefinedTypeParamEq);
                    proof {
                        lemma_contains_pushed(infos3, MismatchedTypeInfo::DefinedTypeParamEq);
                        assert(infos3.push(MismatchedTypeInfo::DefinedTypeParamEq) == infos@);
                    }
                    is_success = false;
                }
                proof {
                    if is_success && has_trait(type_param_entry1@, STraitName::Shared) {
                        let j = choose|j: int| 0 <= j < names.len() && names[j] == STraitName::Shared;
                        assert(trait_satisfied(tree@, names[j], type_value2@, shared_flag) == Some(true));
                    }
                    lemma_reports_kept(infos2, infos@);
                    if has_trait(type_param_entry1@, STraitName::Shared) && shared_flag
                        == SharedFlag::NonShared {
                        let j = choose|j: int| 0 <= j < names.len() && names[j] == STraitName::Shared;
                        assert(trait_satisfied(tree@, names[j], type_value2@, shared_flag) == Some(false));
                        assert(reports_type(infos2, stv_type_name(type_value2@).unwrap(), names[j], local_type1));
                    }
                }
                proof {
                    let cl = if !has_trait(p1v, STraitName::Shared) && shared_flag == SharedFlag::Shared {
                        spec_closures(tree@, s_checked, p1v.closure_local_types, p1v.closure_local_types.len())
                    } else {
                        Some((true, s_checked, Seq::<SInfo>::empty()))
                    };
                    lemma_flag_pushes(infos_l0, infos4, infos@, lambda && shared_flag == SharedFlag::NonShared, defined);
                    lemma_type_leaf_end(
                        tree@,
                        old(local_types)@,
                        uniq_flag1,
                        p1v,
                        local_type1,
                        type_value2@,
                        fuel as nat,
                        s_checked,
                        ok1,
                        f1,
                        v1,
                        shared_flag,
                        v2,
                        cl.unwrap().0,
                        t3,
                        cl.unwrap().2,
                        lambda,
                        defined,
                        is_success,
                        old(infos)@,
                        infos_t0,
                        infos_c0,
                        infos_l0,
                        infos@,
                    );
                }
                if !is_success {
                    return Ok(None);
                }
                local_types.set_type_value(local_type1, type_value2.duplicate());
                Ok(Some(shared_flag))
            },
        }
    }

    /// Matches two types: their names and arguments must match and they must share alike.
    fn match_types(
        &self,
        type_value1: &TypeValue,
        type_value2: &TypeValue,
        tree: &Tree,
        local_types: &mut LocalTypes,
        infos: &mut Vec<MismatchedTypeInfo>,
        fuel: usize,
    ) -> (r: FrontendInternalResult<Option<SharedFlag>>)
        requires
            old(local_types).wf(),
        ensures
            ground_type(type_value1@) && ground_type(type_value2@) ==> ground_result(
                ground_types_outcome(tree@, old(local_types)@, type_value1@, type_value2@, fuel as nat),
                r,
            ) && final(local_types)@ == old(local_types)@ && final(infos)@ == old(infos)@,
            r matches Ok(Some(f)) ==> types_share_alike(tree@, final(local_types)@, type_value1@, type_value2@, f),
            r matches Ok(Some(_)) ==> final(infos)@ == old(infos)@,
            keeps_classes(old(local_types)@, final(local_types)@),
            keeps_eq_flags(old(local_types)@, final(local_types)@),
            final(local_types).wf(),
            final(local_types)@.len() == old(local_types)@.len(),
            extends(old(infos)@, final(infos)@),
            type_value1@ == type_value2@ ==> (r is Err || r matches Ok(Some(_))) && final(local_types)@ == old(local_types)@ && final(infos)@ == old(infos)@,
            r matches Ok(Some(_)) ==> type_value1@ matches STypeValue::Type(_, n1, a1)
                && type_value2@ matches STypeValue::Type(_, n2, a2) && n1 == n2 && a1.len() == a2.len(),
            (type_value1@ matches STypeValue::Type(_, n1, a1) && type_value2@ matches STypeValue::Type(
                _,
                n2,
                a2,
            ) && (n1 != n2 || a1.len() != a2.len())) ==> (r matches Ok(None)) && final(local_types)@ == old(local_types)@ && final(infos)@ == old(infos)@,
            r matches Ok(Some(_)) ==> entries_args_matched(
                tree@,
                old(local_types)@,
                final(local_types)@,
                SEntry::Type(type_value1@),
                SEntry::Type(type_value2@),
            ),
            match_result(
                spec_match_types(tree@, old(local_types)@, type_value1@, type_value2@, fuel as nat),
                r,
                final(local_types)@,
                old(infos)@,
                final(infos)@,
            ),
        decreases fuel, 2nat,
    {
        proof {
            local_types.lemma_wf();
            lemma_keeps_same_roots(local_types@, local_types@);
        }
        proof {
            lemma_extends_refl(infos@);
        }
        match (type_value1, type_value2) {
            (
                TypeValue::Type(_, type_value_name1, type_values1),
                TypeValue::Type(_, type_value_name2, type_values2),
            ) => {
                proof {
                    lemma_type_values_view(type_values1@);
                    lemma_type_values_view(type_values2@);
                }
                if type_values1.len() != type_values2.len() {
                    return Ok(None);
                }
                if !type_value_name1.same(type_value_name2) {
                    return Ok(None);
                }
                proof {
                    assert(type_value1@ == STypeValue::Type(
                        type_value1@->Type_0,
                        type_value_name1@,
                        type_values_view(type_values1@),
                    ));
                    assert(type_value2@ == STypeValue::Type(
                        type_value2@->Type_0,
                        type_value_name2@,
                        type_values_view(type_values2@),
                    ));
                    if ground_type(type_value1@) && ground_type(type_value2@) {
                        let vs1 = type_values_view(type_values1@);
                        let vs2 = type_values_view(type_values2@);
                        assert(ground_type(STypeValue::Type(type_value1@->Type_0, type_value_name1@, vs1)));
                        assert(ground_type(STypeValue::Type(type_value2@->Type_0, type_value_name2@, vs2)));
                        lemma_ground_list(vs1);
                        lemma_ground_list(vs2);
                    }
                }
                let (ok, type_arg_shared_flag) = self.match_type_value_lists(
                    type_values1,
                    type_values2,
                    tree,
                    local_types,
                    infos,
                    fuel,
                )?;
                if !ok {
                    return Ok(None);
                }
                let shared_flag1 = self.shared_flag_for_type_value2(
                    type_value1,
                    Some(type_arg_shared_flag),
                    tree,
                    local_types,
                )?;
                let shared_flag2 = self.shared_flag_for_type_value2(
                    type_value2,
                    Some(type_arg_shared_flag),
                    tree,
                    local_types,
                )?;
                if shared_flag1 != shared_flag2 {
                    return Ok(None);
                }
                Ok(Some(shared_flag1))
            },
            _ => Err(
                internal_error("match_local_type_entries_with_infos: type parameter in local type entry"),
            ),
        }
    }
}

impl TypeMatcher {
    /// Matches two type values. `Matched` when they match, possibly after binding and joining
    /// type parameters in `local_types`; `Mismatched` with the reasons found otherwise.
    pub fn match_type_values(
        &self,
        type_value1: &TypeValue,
        type_value2: &TypeValue,
        tree: &Tree,
        local_types: &mut LocalTypes,
    ) -> (r: FrontendInternalResult<TypeMatcherResult>)
        requires
            old(local_types).wf(),
        ensures
            keeps_classes(old(local_types)@, final(local_types)@),
            keeps_eq_flags(old(local_types)@, final(local_types)@),
            final(local_types).wf(),
            final(local_types)@.len() == old(local_types)@.len(),
            type_value1@ == type_value2@ ==> (r is Err || r matches Ok(TypeMatcherResult::Matched))
                && final(local_types)@ == old(local_types)@,
            r matches Ok(TypeMatcherResult::Matched) ==> matched_in(
                tree@,
                old(local_types)@,
                final(local_types)@,
                type_value1@,
                type_value2@,
            ),
            heads_mismatch_in(old(local_types)@, type_value1@, type_value2@) ==> (r matches Ok(
                TypeMatcherResult::Mismatched(infos),
            ) && infos@.len() == 0) && final(local_types)@ == old(local_types)@,
            (old(local_types)@.entry_for(type_value1@) is None || old(local_types)@.entry_for(
                type_value2@,
            ) is None) ==> r is Err && final(local_types)@ == old(local_types)@,
            r matches Ok(TypeMatcherResult::Matched) ==> type_args_matched(
                tree@,
                old(local_types)@,
                final(local_types)@,
                type_value1@,
                type_value2@,
            ),
            r matches Ok(TypeMatcherResult::Mismatched(infos)) ==> (!heads_mismatch_in(
                old(local_types)@,
                type_value1@,
                type_value2@,
            ) ==> reasons_reported_in(tree@, old(local_types)@, type_value1@, type_value2@, infos@)),
            match_owed_in(tree@, old(local_types)@, type_value1@, type_value2@) ==> owed_match_result(
                owed_outcome_in(tree@, old(local_types)@, type_value1@, type_value2@),
                r,
                final(local_types)@,
            ),
            r matches Ok(TypeMatcherResult::Matched) ==> reasons_reported_in(
                tree@,
                old(local_types)@,
                type_value1@,
                type_value2@,
                Seq::empty(),
            ),
            ground_reasons_result(
                tree@,
                old(local_types)@,
                type_value1@,
                type_value2@,
                (TYPE_DEPTH_LIMIT - 1) as nat,
                r,
            ),
            match_owed_same_values_in(tree@, old(local_types)@, type_value1@, type_value2@) ==> (r is Err
                || ((r matches Ok(TypeMatcherResult::Matched)) && same_values_table_in(
                tree@,
                old(local_types)@,
                type_value1@,
                type_value2@,
            ) == Some(final(local_types)@))),
            match_owed_ground_in(tree@, old(local_types)@, type_value1@, type_value2@, (TYPE_DEPTH_LIMIT - 1) as nat)
                ==> owed_match_result(
                ground_owed_outcome_in(tree@, old(local_types)@, type_value1@, type_value2@, (TYPE_DEPTH_LIMIT - 1) as nat),
                r,
                final(local_types)@,
            ),
            ground_entries_in(old(local_types)@, type_value1@, type_value2@) ==> ground_match_result(
                ground_outcome_in(tree@, old(local_types)@, type_value1@, type_value2@, TYPE_DEPTH_LIMIT as nat),
                r,
            ) && final(local_types)@ == old(local_types)@,
            public_match_result(
                spec_match_tvs(tree@, old(local_types)@, type_value1@, type_value2@, TYPE_DEPTH_LIMIT as nat),
                r,
                final(local_types)@,
            ),
    {
        let mut infos: Vec<MismatchedTypeInfo> = Vec::new();
        proof {
            let m = spec_match_tvs(tree@, local_types@, type_value1@, type_value2@, TYPE_DEPTH_LIMIT as nat);
            if m is Some {
                lemma_infos_view_empty(m.unwrap().2);
            }
        }
        match self.match_type_values_with_infos(
            type_value1,
            type_value2,
            tree,
            local_types,
            &mut infos,
            TYPE_DEPTH_LIMIT,
        ) {
            Ok(Some(_)) => Ok(TypeMatcherResult::Matched),
            Ok(None) => Ok(TypeMatcherResult::Mismatched(infos)),
            Err(err) => Err(err),
        }
    }

    /// Matches two local types (see `match_type_values`).
    pub fn matches(
        &self,
        local_type1: LocalType,
        local_type2: LocalType,
        tree: &Tree,
        local_types: &mut LocalTypes,
    ) -> (r: FrontendInternalResult<TypeMatcherResult>)
        requires
            old(local_types).wf(),
        ensures
            keeps_classes(old(local_types)@, final(local_types)@),
            keeps_eq_flags(old(local_types)@, final(local_types)@),
            final(local_types).wf(),
            final(local_types)@.len() == old(local_types)@.len(),
            local_type1 == local_type2 ==> (r is Err || r matches Ok(TypeMatcherResult::Matched))
                && final(local_types)@ == old(local_types)@,
            r matches Ok(TypeMatcherResult::Matched) ==> matched_in(
                tree@,
                old(local_types)@,
                final(local_types)@,
                STypeValue::Param(UniqFlag::NonUniq, local_type1),
                STypeValue::Param(UniqFlag::NonUniq, local_type2),
            ),
            heads_mismatch_in(
                old(local_types)@,
                STypeValue::Param(UniqFlag::NonUniq, local_type1),
                STypeValue::Param(UniqFlag::NonUniq, local_type2),
            ) ==> (r matches Ok(TypeMatcherResult::Mismatched(infos)) && infos@.len() == 0)
                && final(local_types)@ == old(local_types)@,
            (local_type1.idx >= old(local_types)@.len() || local_type2.idx >= old(local_types)@.len())
                ==> r is Err && final(local_types)@ == old(local_types)@,
            r matches Ok(TypeMatcherResult::Matched) ==> type_args_matched(
                tree@,
                old(local_types)@,
                final(local_types)@,
                STypeValue::Param(UniqFlag::NonUniq, local_type1),
                STypeValue::Param(UniqFlag::NonUniq, local_type2),
            ),
            r matches Ok(TypeMatcherResult::Mismatched(infos)) ==> (!heads_mismatch_in(
                old(local_types)@,
                STypeValue::Param(UniqFlag::NonUniq, local_type1),
                STypeValue::Param(UniqFlag::NonUniq, local_type2),
            ) ==> reasons_reported_in(
                tree@,
                old(local_types)@,
                STypeValue::Param(UniqFlag::NonUniq, local_type1),
                STypeValue::Param(UniqFlag::NonUniq, local_type2),
                infos@,
            )),
            match_owed_in(
                tree@,
                old(local_types)@,
                STypeValue::Param(UniqFlag::NonUniq, local_type1),
                STypeValue::Param(UniqFlag::NonUniq, local_type2),
            ) ==> owed_match_result(
                owed_outcome_in(
                    tree@,
                    old(local_types)@,
                    STypeValue::Param(UniqFlag::NonUniq, local_type1),
                    STypeValue::Param(UniqFlag::NonUniq, local_type2),
                ),
                r,
                final(local_types)@,
            ),
            r matches Ok(TypeMatcherResult::Matched) ==> reasons_reported_in(
                tree@,
                old(local_types)@,
                STypeValue::Param(UniqFlag::NonUniq, local_type1),
                STypeValue::Param(UniqFlag::NonUniq, local_type2),
                Seq::empty(),
            ),
            ground_reasons_result(
                tree@,
                old(local_types)@,
                STypeValue::Param(UniqFlag::NonUniq, local_type1),
                STypeValue::Param(UniqFlag::NonUniq, local_type2),
                (TYPE_DEPTH_LIMIT - 1) as nat,
                r,
            ),
            match_owed_same_values_in(
                tree@,
                old(local_types)@,
                STypeValue::Param(UniqFlag::NonUniq, local_type1),
                STypeValue::Param(UniqFlag::NonUniq, local_type2),
            ) ==> (r is Err || ((r matches Ok(TypeMatcherResult::Matched)) && same_values_table_in(
                tree@,
                old(local_types)@,
                STypeValue::Param(UniqFlag::NonUniq, local_type1),
                STypeValue::Param(UniqFlag::NonUniq, local_type2),
            ) == Some(final(local_types)@))),
            ground_entries_in(
                old(local_types)@,
                STypeValue::Param(UniqFlag::NonUniq, local_type1),
                STypeValue::Param(UniqFlag::NonUniq, local_type2),
            ) ==> ground_match_result(
                ground_outcome_in(
                    tree@,
                    old(local_types)@,
                    STypeValue::Param(UniqFlag::NonUniq, local_type1),
                    STypeValue::Param(UniqFlag::NonUniq, local_type2),
                    TYPE_DEPTH_LIMIT as nat,
                ),
                r,
            ) && final(local_types)@ == old(local_types)@,
            match_owed_ground_in(
                tree@,
                old(local_types)@,
                STypeValue::Param(UniqFlag::NonUniq, local_type1),
                STypeValue::Param(UniqFlag::NonUniq, local_type2),
                (TYPE_DEPTH_LIMIT - 1) as nat,
            ) ==> owed_match_result(
                ground_owed_outcome_in(
                    tree@,
                    old(local_types)@,
                    STypeValue::Param(UniqFlag::NonUniq, local_type1),
                    STypeValue::Param(UniqFlag::NonUniq, local_type2),
                    (TYPE_DEPTH_LIMIT - 1) as nat,
                ),
                r,
                final(local_types)@,
            ),
            public_match_result(
                spec_match_tvs(
                    tree@,
                    old(local_types)@,
                    STypeValue::Param(UniqFlag::NonUniq, local_type1),
                    STypeValue::Param(UniqFlag::NonUniq, local_type2),
                    TYPE_DEPTH_LIMIT as nat,
                ),
                r,
                final(local_types)@,
            ),
    {
        let type_value1 = TypeValue::Param(UniqFlag::NonUniq, local_type1);
        let type_value2 = TypeValue::Param(UniqFlag::NonUniq, local_type2);
        self.match_type_values(&type_value1, &type_value2, tree, local_types)
    }

    /// Matches the type of a pattern's first side with that of its second side. When the second
    /// is unique by itself, the first becomes unique too, unless the first is a variable of a
    /// shared type: then they do not match, for that reason alone.
    pub fn match_for_first_pattern_type(
        &self,
        local_type1: LocalType,
        is_var1: bool,
        local_type2: LocalType,
        tree: &Tree,
        local_types: &mut LocalTypes,
    ) -> (r: FrontendInternalResult<TypeMatcherResult>)
        requires
            old(local_types).wf(),
            old(local_types)@.len() < usize::MAX,
        ensures
            keeps_classes(old(local_types)@, final(local_types)@),
            keeps_eq_flags(old(local_types)@, final(local_types)@),
            final(local_types).wf(),
            final(local_types)@.len() == old(local_types)@.len() || final(local_types)@.len()
                == old(local_types)@.len() + 1,
            spec_real_uniq(old(local_types)@, STypeValue::Param(UniqFlag::NonUniq, local_type2))
                is None ==> r is Err && final(local_types)@ == old(local_types)@,
            ({
                let s = old(local_types)@;
                spec_real_uniq(s, STypeValue::Param(UniqFlag::NonUniq, local_type2)) == Some(
                    UniqFlag::Uniq,
                ) && is_var1 && spec_flags(
                    tree@,
                    s,
                    STypeValue::Param(UniqFlag::NonUniq, local_type1),
                    None,
                    Self::fuel(),
                ) matches Some((_, SharedFlag::Shared))
            }) ==> final(local_types)@ == old(local_types)@ && (r matches Ok(
                TypeMatcherResult::Mismatched(infos),
            ) && infos@.len() == 1 && (infos@[0] matches MismatchedTypeInfo::UniqParam(l) && l
                == local_type1)),
            pattern_table(tree@, old(local_types)@, local_type1, is_var1, local_type2) matches Some(m) ==> matching_outcome(
                tree@,
                m,
                final(local_types)@,
                STypeValue::Param(UniqFlag::NonUniq, local_type1),
                STypeValue::Param(UniqFlag::NonUniq, local_type2),
                r,
            ),
            (spec_real_uniq(old(local_types)@, STypeValue::Param(UniqFlag::NonUniq, local_type2)) == Some(
                UniqFlag::Uniq,
            ) && is_var1 && spec_flags(
                tree@,
                old(local_types)@,
                STypeValue::Param(UniqFlag::NonUniq, local_type1),
                None,
                Self::fuel(),
            ) is None) ==> r is Err && final(local_types)@ == old(local_types)@,
    {
        proof {
            local_types.lemma_wf();
            lemma_keeps_same_roots(local_types@, local_types@);
        }
        let type_value1 = TypeValue::Param(UniqFlag::NonUniq, local_type1);
        let type_value2 = TypeValue::Param(UniqFlag::NonUniq, local_type2);
        let uniq_flag = self.real_uniq_flag_for_type_value(&type_value2, local_types)?;
        if uniq_flag == UniqFlag::Uniq {
            if is_var1 && self.shared_flag(local_type1, tree, local_types)? == SharedFlag::Shared {
                return Ok(TypeMatcherResult::Mismatched(vec![MismatchedTypeInfo::UniqParam(local_type1)]));
            }
            local_types.set_uniq(local_type1);
        }
        self.match_type_values(&type_value1, &type_value2, tree, local_types)
    }

    /// Matches the type of a pattern's first side with that of its second side. When the first
    /// is unique by itself, the second becomes unique too, unless the second is a variable of a
    /// shared type: then they do not match, for that reason alone.
    pub fn match_for_second_pattern_type(
        &self,
        local_type1: LocalType,
        local_type2: LocalType,
        is_var2: bool,
        tree: &Tree,
        local_types: &mut LocalTypes,
    ) -> (r: FrontendInternalResult<TypeMatcherResult>)
        requires
            old(local_types).wf(),
            old(local_types)@.len() < usize::MAX,
        ensures
            keeps_classes(old(local_types)@, final(local_types)@),
            keeps_eq_flags(old(local_types)@, final(local_types)@),
            final(local_types).wf(),
            final(local_types)@.len() == old(local_types)@.len() || final(local_types)@.len()
                == old(local_types)@.len() + 1,
            spec_real_uniq(old(local_types)@, STypeValue::Param(UniqFlag::NonUniq, local_type1))
                is None ==> r is Err && final(local_types)@ == old(local_types)@,
            ({
                let s = old(local_types)@;
                spec_real_uniq(s, STypeValue::Param(UniqFlag::NonUniq, local_type1)) == Some(
                    UniqFlag::Uniq,
                ) && is_var2 && spec_flags(
                    tree@,
                    s,
                    STypeValue::Param(UniqFlag::NonUniq, local_type2),
                    None,
                    Self::fuel(),
                ) matches Some((_, SharedFlag::Shared))
            }) ==> final(local_types)@ == old(local_types)@ && (r matches Ok(
                TypeMatcherResult::Mismatched(infos),
            ) && infos@.len() == 1 && (infos@[0] matches MismatchedTypeInfo::UniqParam(l) && l
                == local_type2)),
            pattern_table(tree@, old(local_types)@, local_type2, is_var2, local_type1) matches Some(m) ==> matching_outcome(
                tree@,
                m,
                final(local_types)@,
                STypeValue::Param(UniqFlag::NonUniq, local_type1),
                STypeValue::Param(UniqFlag::NonUniq, local_type2),
                r,
            ),
            (spec_real_uniq(old(local_types)@, STypeValue::Param(UniqFlag::NonUniq, local_type1)) == Some(
                UniqFlag::Uniq,
            ) && is_var2 && spec_flags(
                tree@,
                old(local_types)@,
                STypeValue::Param(UniqFlag::NonUniq, local_type2),
                None,
                Self::fuel(),
            ) is None) ==> r is Err && final(local_types)@ == old(local_types)@,
    {
        proof {
            local_types.lemma_wf();
            lemma_keeps_same_roots(local_types@, local_types@);
        }
        let type_value1 = TypeValue::Param(UniqFlag::NonUniq, local_type1);
        let type_value2 = TypeValue::Param(UniqFlag::NonUniq, local_type2);
        let uniq_flag = self.real_uniq_flag_for_type_value(&type_value1, local_types)?;
        if uniq_flag == UniqFlag::Uniq {
            if is_var2 && self.shared_flag(local_type2, tree, local_types)? == SharedFlag::Shared {
                return Ok(TypeMatcherResult::Mismatched(vec![MismatchedTypeInfo::UniqParam(local_type2)]));
            }
            local_types.set_uniq(local_type2);
        }
        self.match_type_values(&type_value1, &type_value2, tree, local_types)
    }
}

/// Whether the type variable `id` is a primitive type: a builtin that the language marks
/// primitive; a data type is not. `None` for an internal error (no such type variable, or a
/// type synonym).
pub open spec fn spec_has_primitive(tree: STree, builtins: Seq<crate::env::BuiltinTypeVar>, id: Seq<char>) -> Option<bool> {
    match find_type_var(tree.type_vars, id) {
        Some(v) => if v.kind == TypeVarKind::Builtin {
            match find_primitive(builtins, id) {
                Some(p) => Some(p),
                None => Some(false),
            }
        } else if v.kind == TypeVarKind::Data {
            Some(false)
        } else {
            None
        },
        None => None,
    }
}

/// Whether the heads of two types allow a cast between them: two primitive named types, two
/// tuples, or two arrays of one known length. `None` for an internal error; the second name is
/// looked at only when the first is primitive.
pub open spec fn spec_cast_heads(
    tree: STree,
    builtins: Seq<crate::env::BuiltinTypeVar>,
    n1: STypeValueName,
    n2: STypeValueName,
) -> Option<bool> {
    match (n1, n2) {
        (STypeValueName::Name(i1), STypeValueName::Name(i2)) => match spec_has_primitive(tree, builtins, i1) {
            None => None,
            Some(false) => Some(false),
            Some(true) => spec_has_primitive(tree, builtins, i2),
        },
        (STypeValueName::Tuple, STypeValueName::Tuple) => Some(true),
        (STypeValueName::Array(Some(k1)), STypeValueName::Array(Some(k2))) => Some(k1 == k2),
        _ => Some(false),
    }
}

/// Whether a value of the type that `tv1` stands for can be cast to that of `tv2`: both types,
/// with heads that allow it (see `spec_cast_heads`), arguments that allow it pairwise, and equal
/// sharing. `Some(Some(flag))` with that sharing when it can, `Some(None)` when it cannot,
/// `None` for an internal error.
pub open spec fn spec_cast(
    tree: STree,
    builtins: Seq<crate::env::BuiltinTypeVar>,
    lts: SLocalTypes,
    tv1: STypeValue,
    tv2: STypeValue,
    fuel: nat,
) -> Option<Option<SharedFlag>>
    decreases fuel, 0nat,
{
    if fuel == 0 {
        None
    } else {
        match (lts.entry_for(tv1), lts.entry_for(tv2)) {
            (Some(e1), Some(e2)) => match (e1, e2) {
                (SEntry::Type(t1), SEntry::Type(t2)) => match (t1, t2) {
                    (STypeValue::Type(_, n1, a1), STypeValue::Type(_, n2, a2)) => match spec_cast_heads(
                        tree,
                        builtins,
                        n1,
                        n2,
                    ) {
                        None => None,
                        Some(false) => Some(None),
                        Some(true) => if a1.len() != a2.len() {
                            Some(None)
                        } else {
                            match spec_cast_args(tree, builtins, lts, a1, a2, (fuel - 1) as nat) {
                                None => None,
                                Some((false, _)) => Some(None),
                                Some((true, f)) => match (
                                    spec_flags(tree, lts, t1, Some(f), TYPE_DEPTH_LIMIT as nat),
                                    spec_flags(tree, lts, t2, Some(f), TYPE_DEPTH_LIMIT as nat),
                                ) {
                                    (Some((_, f1)), Some((_, f2))) => if f1 == f2 {
                                        Some(Some(f1))
                                    } else {
                                        Some(None)
                                    },
                                    _ => None,
                                },
                            }
                        },
                    },
                    _ => None,
                },
                _ => Some(None),
            },
            _ => None,
        }
    }
}

/// `spec_cast` for the pairs of arguments of equal positions (the shorter sequence decides):
/// whether all allow a cast and whether all of those share; `None` for an internal error.
pub open spec fn spec_cast_args(
    tree: STree,
    builtins: Seq<crate::env::BuiltinTypeVar>,
    lts: SLocalTypes,
    a1: Seq<STypeValue>,
    a2: Seq<STypeValue>,
    fuel: nat,
) -> Option<(bool, SharedFlag)>
    decreases fuel, a1.len() + 1,
{
    if a1.len() == 0 || a2.len() == 0 {
        Some((true, SharedFlag::Shared))
    } else {
        let k = if a1.len() < a2.len() { a1.len() } else { a2.len() };
        match spec_cast_args(tree, builtins, lts, a1.take(k - 1), a2.take(k - 1), fuel) {
            None => None,
            Some((ok, f)) => match spec_cast(tree, builtins, lts, a1[k - 1], a2[k - 1], fuel) {
                None => None,
                Some(None) => Some((false, f)),
                Some(Some(g)) => Some((ok, shared_and(f, g))),
            },
        }
    }
}

impl TypeMatcher {
    fn has_primitive_for_type_ident(&self, ident: &String, tree: &Tree, builtins: &Builtins) -> (r:
        FrontendInternalResult<bool>)
        ensures
            match r {
                Ok(b) => spec_has_primitive(tree@, builtins.type_vars@, ident@) == Some(b),
                Err(_) => spec_has_primitive(tree@, builtins.type_vars@, ident@) is None,
            },
            r matches Err(e) ==> e.0@ == spec_has_primitive_error(tree@, builtins.type_vars@, ident@),
    {
        match tree.type_var(ident) {
            Some(type_var) => {
                match type_var.kind {
                    TypeVarKind::Builtin => match builtins.is_primitive(ident) {
                        Some(p) => Ok(p),
                        None => Ok(false),
                    },
                    TypeVarKind::Data => Ok(false),
                    TypeVarKind::Synonym => Err(
                        internal_error("has_primitive_for_type_ident: type variable is type synonym"),
                    ),
                }
            },
            None => Err(internal_error("has_primitive_for_type_ident: no type variable")),
        }
    }

    fn cast_heads(&self, n1: &TypeValueName, n2: &TypeValueName, tree: &Tree, builtins: &Builtins) -> (r:
        FrontendInternalResult<bool>)
        ensures
            match r {
                Ok(b) => spec_cast_heads(tree@, builtins.type_vars@, n1@, n2@) == Some(b),
                Err(_) => spec_cast_heads(tree@, builtins.type_vars@, n1@, n2@) is None,
            },
            r matches Err(e) ==> e.0@ == spec_cast_heads_error(tree@, builtins.type_vars@, n1@, n2@),
    {
        match (n1, n2) {
            (TypeValueName::Name(ident1), TypeValueName::Name(ident2)) => {
                if !self.has_primitive_for_type_ident(ident1, tree, builtins)? {
                    Ok(false)
                } else {
                    self.has_primitive_for_type_ident(ident2, tree, builtins)
                }
            },
            (TypeValueName::Tuple, TypeValueName::Tuple) => Ok(true),
            (TypeValueName::Array(Some(len1)), TypeValueName::Array(Some(len2))) => Ok(*len1 == *len2),
            _ => Ok(false),
        }
    }

    fn match_local_type_entries_for_casting(
        &self,
        local_type_entry1: &LocalTypeEntry,
        local_type_entry2: &LocalTypeEntry,
        tree: &Tree,
        local_types: &LocalTypes,
        builtins: &Builtins,
        fuel: usize,
    ) -> (r: FrontendInternalResult<Option<SharedFlag>>)
        requires
            local_types.wf(),
            fuel > 0,
        ensures
            match r {
                Ok(x) => spec_cast_entries(tree@, builtins.type_vars@, local_types@, local_type_entry1@, local_type_entry2@, fuel as nat) == Some(x),
                Err(_) => spec_cast_entries(tree@, builtins.type_vars@, local_types@, local_type_entry1@, local_type_entry2@, fuel as nat) is None,
            },
            r matches Err(e) ==> e.0@ == spec_cast_entries_error(tree@, builtins.type_vars@, local_types@, local_type_entry1@, local_type_entry2@, fuel as nat),
        decreases fuel, 2nat,
    {
        match (local_type_entry1, local_type_entry2) {
            (LocalTypeEntry::Type(type_value1), LocalTypeEntry::Type(type_value2)) => {
                match (type_value1, type_value2) {
                    (
                        TypeValue::Type(_, type_value_name1, type_values1),
                        TypeValue::Type(_, type_value_name2, type_values2),
                    ) => {
                        proof {
                            lemma_type_values_view(type_values1@);
                            lemma_type_values_view(type_values2@);
                        }
                        if !self.cast_heads(type_value_name1, type_value_name2, tree, builtins)? {
                            return Ok(None);
                        }
                        if type_values1.len() != type_values2.len() {
                            return Ok(None);
                        }
                        let (ok, type_arg_shared_flag) = self.cast_arg_lists(
                            type_values1,
                            type_values2,
                            tree,
                            local_types,
                            builtins,
                            fuel - 1,
                        )?;
                        if !ok {
                            return Ok(None);
                        }
                        let shared_flag1 = self.shared_flag_for_type_value2(
                            type_value1,
                            Some(type_arg_shared_flag),
                            tree,
                            local_types,
                        )?;
                        let shared_flag2 = self.shared_flag_for_type_value2(
                            type_value2,
                            Some(type_arg_shared_flag),
                            tree,
                            local_types,
                        )?;
                        if shared_flag1 != shared_flag2 {
                            return Ok(None);
                        }
                        Ok(Some(shared_flag1))
                    },
                    _ => Err(internal_error("match_local_type_entries_for_casting: no variable")),
                }
            },
            _ => Ok(None),
        }
    }

    /// `spec_cast_args` for two argument lists of equal length.
    fn cast_arg_lists(
        &self,
        type_values1: &Vec<TypeValue>,
        type_values2: &Vec<TypeValue>,
        tree: &Tree,
        local_types: &LocalTypes,
        builtins: &Builtins,
        fuel: usize,
    ) -> (r: FrontendInternalResult<(bool, SharedFlag)>)
        requires
            local_types.wf(),
            type_values1@.len() == type_values2@.len(),
        ensures
            match r {
                Ok(p) => spec_cast_args(tree@, builtins.type_vars@, local_types@, type_values_view(type_values1@), type_values_view(type_values2@), fuel as nat) == Some(p),
                Err(_) => spec_cast_args(tree@, builtins.type_vars@, local_types@, type_values_view(type_values1@), type_values_view(type_values2@), fuel as nat) is None,
            },
            r matches Err(e) ==> e.0@ == spec_cast_args_error(tree@, builtins.type_vars@, local_types@, type_values_view(type_values1@), type_values_view(type_values2@), fuel as nat),
        decreases fuel, 4nat,
    {
        proof {
            lemma_type_values_view(type_values1@);
            lemma_type_values_view(type_values2@);
        }
        let ghost vs1 = type_values_view(type_values1@);
        let ghost vs2 = type_values_view(type_values2@);
        let mut ok = true;
        let mut flag = SharedFlag::Shared;
        let mut i: usize = 0;
        while i < type_values1.len()
            invariant
                local_types.wf(),
                i <= type_values1@.len(),
                type_values1@.len() == type_values2@.len(),
                vs1 == type_values_view(type_values1@),
                vs2 == type_values_view(type_values2@),
                vs1.len() == type_values1@.len(),
                vs2.len() == type_values2@.len(),
                forall|j: int| 0 <= j < type_values1@.len() ==> #[trigger] vs1[j] == type_values1@[j]@,
                forall|j: int| 0 <= j < type_values2@.len() ==> #[trigger] vs2[j] == type_values2@[j]@,
                spec_cast_args(tree@, builtins.type_vars@, local_types@, vs1.take(i as int), vs2.take(i as int), fuel as nat) == Some((ok, flag)),
            decreases type_values1@.len() - i,
        {
            proof {
                let t1 = vs1.take(i + 1);
                let t2 = vs2.take(i + 1);
                assert(t1.take(i as int) =~= vs1.take(i as int));
                assert(t2.take(i as int) =~= vs2.take(i as int));
                assert(t1[i as int] == type_values1@[i as int]@);
                assert(t2[i as int] == type_values2@[i as int]@);
            }
            match self.match_type_values_for_casting2(
                &type_values1[i],
                &type_values2[i],
                tree,
                local_types,
                builtins,
                fuel,
            ) {
                Ok(Some(f)) => {
                    if f == SharedFlag::NonShared {
                        flag = SharedFlag::NonShared;
                    }
                },
                Ok(None) => {
                    ok = false;
                },
                Err(e) => {
                    proof {
                        lemma_cast_args_none_extends(tree@, builtins.type_vars@, local_types@, vs1, vs2, i as int + 1, fuel as nat);
                        assert(vs1.take(vs1.len() as int) =~= vs1);
                        assert(vs2.take(vs2.len() as int) =~= vs2);
                        lemma_cast_args_error_at(
                            tree@,
                            builtins.type_vars@,
                            local_types@,
                            vs1,
                            vs2,
                            i as int,
                            vs1.len() as int,
                            fuel as nat,
                        );
                    }
                    return Err(e);
                },
            }
            i = i + 1;
        }
        assert(vs1.take(vs1.len() as int) =~= vs1);
        assert(vs2.take(vs2.len() as int) =~= vs2);
        Ok((ok, flag))
    }

    fn match_type_values_for_casting2(
        &self,
        type_value1: &TypeValue,
        type_value2: &TypeValue,
        tree: &Tree,
        local_types: &LocalTypes,
        builtins: &Builtins,
        fuel: usize,
    ) -> (r: FrontendInternalResult<Option<SharedFlag>>)
        requires
            local_types.wf(),
        ensures
            match r {
                Ok(x) => spec_cast(tree@, builtins.type_vars@, local_types@, type_value1@, type_value2@, fuel as nat) == Some(x),
                Err(_) => spec_cast(tree@, builtins.type_vars@, local_types@, type_value1@, type_value2@, fuel as nat) is None,
            },
            r matches Err(e) ==> e.0@ == spec_cast_error(tree@, builtins.type_vars@, local_types@, type_value1@, type_value2@, fuel as nat),
        decreases fuel, 3nat,
    {
        if fuel == 0 {
            return Err(internal_error("match_type_values_for_casting2: too deep type"));
        }
        let local_type_entry1 = local_types.type_entry_for_type_value(type_value1);
        let local_type_entry2 = local_types.type_entry_for_type_value(type_value2);
        match (local_type_entry1, local_type_entry2) {
            (Some(local_type_entry1), Some(local_type_entry2)) => self.match_local_type_entries_for_casting(
                &local_type_entry1,
                &local_type_entry2,
                tree,
                local_types,
                builtins,
                fuel,
            ),
            (_, _) => Err(internal_error("match_type_values_for_casting2: no local type entry")),
        }
    }

    /// Whether a value of the type that `type_value1` stands for can be cast to that of
    /// `type_value2` (see `spec_cast`).
    pub fn match_type_values_for_casting(
        &self,
        type_value1: &TypeValue,
        type_value2: &TypeValue,
        tree: &Tree,
        local_types: &LocalTypes,
        builtins: &Builtins,
    ) -> (r: FrontendInternalResult<bool>)
        requires
            local_types.wf(),
        ensures
            match r {
                Ok(b) => spec_cast(tree@, builtins.type_vars@, local_types@, type_value1@, type_value2@, Self::fuel()) matches Some(x) && b == x is Some,
                Err(_) => spec_cast(tree@, builtins.type_vars@, local_types@, type_value1@, type_value2@, Self::fuel()) is None,
            },
            r matches Err(e) ==> e.0@ == spec_cast_error(tree@, builtins.type_vars@, local_types@, type_value1@, type_value2@, Self::fuel()),
    {
        match self.match_type_values_for_casting2(type_value1, type_value2, tree, local_types, builtins, TYPE_DEPTH_LIMIT) {
            Ok(Some(_)) => Ok(true),
            Ok(None) => Ok(false),
            Err(err) => Err(err),
        }
    }

    /// Whether a value of local type `local_type1` can be cast to local type `local_type2`.
    pub fn match_for_casting(
        &self,
        local_type1: LocalType,
        local_type2: LocalType,
        tree: &Tree,
        local_types: &LocalTypes,
        builtins: &Builtins,
    ) -> (r: FrontendInternalResult<bool>)
        requires
            local_types.wf(),
        ensures
            match r {
                Ok(b) => spec_cast(tree@, builtins.type_vars@, local_types@, STypeValue::Param(UniqFlag::NonUniq, local_type1), STypeValue::Param(UniqFlag::NonUniq, local_type2), Self::fuel()) matches Some(x) && b == x is Some,
                Err(_) => spec_cast(tree@, builtins.type_vars@, local_types@, STypeValue::Param(UniqFlag::NonUniq, local_type1), STypeValue::Param(UniqFlag::NonUniq, local_type2), Self::fuel()) is None,
            },
            r matches Err(e) ==> e.0@ == spec_cast_error(tree@, builtins.type_vars@, local_types@, STypeValue::Param(UniqFlag::NonUniq, local_type1), STypeValue::Param(UniqFlag::NonUniq, local_type2), Self::fuel()),
    {
        let type_value1 = TypeValue::Param(UniqFlag::NonUniq, local_type1);
        let type_value2 = TypeValue::Param(UniqFlag::NonUniq, local_type2);
        self.match_type_values_for_casting(&type_value1, &type_value2, tree, local_types, builtins)
    }
}

/// `spec_cast` on two entries, once they are found.
pub open spec fn spec_cast_entries(
    tree: STree,
    builtins: Seq<crate::env::BuiltinTypeVar>,
    lts: SLocalTypes,
    e1: SEntry,
    e2: SEntry,
    fuel: nat,
) -> Option<Option<SharedFlag>> {
    match (e1, e2) {
        (SEntry::Type(t1), SEntry::Type(t2)) => match (t1, t2) {
            (STypeValue::Type(_, n1, a1), STypeValue::Type(_, n2, a2)) => match spec_cast_heads(tree, builtins, n1, n2) {
                None => None,
                Some(false) => Some(None),
                Some(true) => if a1.len() != a2.len() {
                    Some(None)
                } else {
                    match spec_cast_args(tree, builtins, lts, a1, a2, (fuel - 1) as nat) {
                        None => None,
                        Some((false, _)) => Some(None),
                        Some((true, f)) => match (
                            spec_flags(tree, lts, t1, Some(f), TYPE_DEPTH_LIMIT as nat),
                            spec_flags(tree, lts, t2, Some(f), TYPE_DEPTH_LIMIT as nat),
                        ) {
                            (Some((_, f1)), Some((_, f2))) => if f1 == f2 {
                                Some(Some(f1))
                            } else {
                                Some(None)
                            },
                            _ => None,
                        },
                    }
                },
            },
            _ => None,
        },
        _ => Some(None),
    }
}

/// The message of the internal error at which finding whether type variable `id` is primitive
/// stops: no such type variable, or a type synonym; empty where there is none.
pub open spec fn spec_has_primitive_error(tree: STree, builtins: Seq<crate::env::BuiltinTypeVar>, id: Seq<char>) -> Seq<char> {
    match find_type_var(tree.type_vars, id) {
        Some(v) => if v.kind == TypeVarKind::Builtin || v.kind == TypeVarKind::Data {
            Seq::empty()
        } else {
            "has_primitive_for_type_ident: type variable is type synonym"@
        },
        None => "has_primitive_for_type_ident: no type variable"@,
    }
}

/// The message of the internal error at which casting between two heads stops (see
/// `spec_cast_heads`); empty where there is none.
pub open spec fn spec_cast_heads_error(
    tree: STree,
    builtins: Seq<crate::env::BuiltinTypeVar>,
    n1: STypeValueName,
    n2: STypeValueName,
) -> Seq<char> {
    match (n1, n2) {
        (STypeValueName::Name(i1), STypeValueName::Name(i2)) => match spec_has_primitive(tree, builtins, i1) {
            None => spec_has_primitive_error(tree, builtins, i1),
            Some(false) => Seq::empty(),
            Some(true) => spec_has_primitive_error(tree, builtins, i2),
        },
        _ => Seq::empty(),
    }
}

/// The message of the internal error at which casting between two type values stops (see
/// `spec_cast`); empty where there is none.
pub open spec fn spec_cast_error(
    tree: STree,
    builtins: Seq<crate::env::BuiltinTypeVar>,
    lts: SLocalTypes,
    tv1: STypeValue,
    tv2: STypeValue,
    fuel: nat,
) -> Seq<char>
    decreases fuel, 2nat,
{
    if fuel == 0 {
        "match_type_values_for_casting2: too deep type"@
    } else {
        match (lts.entry_for(tv1), lts.entry_for(tv2)) {
            (Some(e1), Some(e2)) => spec_cast_entries_error(tree, builtins, lts, e1, e2, fuel),
            _ => "match_type_values_for_casting2: no local type entry"@,
        }
    }
}

/// The message of the internal error at which casting between two entries stops (see
/// `spec_cast_entries`); empty where there is none.
pub open spec fn spec_cast_entries_error(
    tree: STree,
    builtins: Seq<crate::env::BuiltinTypeVar>,
    lts: SLocalTypes,
    e1: SEntry,
    e2: SEntry,
    fuel: nat,
) -> Seq<char>
    decreases fuel, 1nat,
{
    match (e1, e2) {
        (SEntry::Type(t1), SEntry::Type(t2)) => match (t1, t2) {
            (STypeValue::Type(_, n1, a1), STypeValue::Type(_, n2, a2)) => match spec_cast_heads(tree, builtins, n1, n2) {
                None => spec_cast_heads_error(tree, builtins, n1, n2),
                Some(false) => Seq::empty(),
                Some(true) => if a1.len() != a2.len() || fuel == 0 {
                    Seq::empty()
                } else {
                    match spec_cast_args(tree, builtins, lts, a1, a2, (fuel - 1) as nat) {
                        None => spec_cast_args_error(tree, builtins, lts, a1, a2, (fuel - 1) as nat),
                        Some((false, _)) => Seq::empty(),
                        Some((true, f)) => match spec_flags(tree, lts, t1, Some(f), TYPE_DEPTH_LIMIT as nat) {
                            None => spec_flags_error(tree, lts, t1, Some(f), TYPE_DEPTH_LIMIT as nat),
                            Some(_) => spec_flags_error(tree, lts, t2, Some(f), TYPE_DEPTH_LIMIT as nat),
                        },
                    }
                },
            },
            _ => "match_local_type_entries_for_casting: no variable"@,
        },
        _ => Seq::empty(),
    }
}

/// The message of the internal error at which casting between type values pairwise stops:
/// that of the first pair at which it stops (see `spec_cast_args`); empty where there is none.
pub open spec fn spec_cast_args_error(
    tree: STree,
    builtins: Seq<crate::env::BuiltinTypeVar>,
    lts: SLocalTypes,
    a1: Seq<STypeValue>,
    a2: Seq<STypeValue>,
    fuel: nat,
) -> Seq<char>
    decreases fuel, a1.len() + 3,
{
    if a1.len() == 0 || a2.len() == 0 {
        Seq::empty()
    } else {
        let k = if a1.len() < a2.len() { a1.len() } else { a2.len() };
        if spec_cast_args(tree, builtins, lts, a1.take(k - 1), a2.take(k - 1), fuel) is None {
            spec_cast_args_error(tree, builtins, lts, a1.take(k - 1), a2.take(k - 1), fuel)
        } else {
            spec_cast_error(tree, builtins, lts, a1[k - 1], a2[k - 1], fuel)
        }
    }
}

/// Where casting the first `k` pairs comes out and casting the next stops at an internal
/// error, casting the first `m` pairs stops at that error.
pub proof fn lemma_cast_args_error_at(
    tree: STree,
    builtins: Seq<crate::env::BuiltinTypeVar>,
    lts: SLocalTypes,
    vs1: Seq<STypeValue>,
    vs2: Seq<STypeValue>,
    k: int,
    m: int,
    fuel: nat,
)
    requires
        0 <= k < m <= vs1.len(),
        vs1.len() == vs2.len(),
        spec_cast_args(tree, builtins, lts, vs1.take(k), vs2.take(k), fuel) is Some,
        spec_cast(tree, builtins, lts, vs1[k], vs2[k], fuel) is None,
    ensures
        spec_cast_args(tree, builtins, lts, vs1.take(m), vs2.take(m), fuel) is None,
        spec_cast_args_error(tree, builtins, lts, vs1.take(m), vs2.take(m), fuel) == spec_cast_error(
            tree,
            builtins,
            lts,
            vs1[k],
            vs2[k],
            fuel,
        ),
    decreases m - k,
{
    assert(vs1.take(m).take(m - 1) =~= vs1.take(m - 1));
    assert(vs2.take(m).take(m - 1) =~= vs2.take(m - 1));
    if m == k + 1 {
        assert(vs1.take(m)[m - 1] == vs1[k]);
        assert(vs2.take(m)[m - 1] == vs2[k]);
    } else {
        lemma_cast_args_error_at(tree, builtins, lts, vs1, vs2, k, m - 1, fuel);
    }
}

/// An internal error among the first `k` pairs stays one for longer prefixes.
pub proof fn lemma_cast_args_none_extends(
    tree: STree,
    builtins: Seq<crate::env::BuiltinTypeVar>,
    lts: SLocalTypes,
    vs1: Seq<STypeValue>,
    vs2: Seq<STypeValue>,
    k: int,
    fuel: nat,
)
    requires
        0 <= k <= vs1.len(),
        vs1.len() == vs2.len(),
        spec_cast_args(tree, builtins, lts, vs1.take(k), vs2.take(k), fuel) is None,
    ensures
        spec_cast_args(tree, builtins, lts, vs1.take(vs1.len() as int), vs2.take(vs2.len() as int), fuel) is None,
    decreases vs1.len() - k,
{
    if k < vs1.len() {
        let t1 = vs1.take(k + 1);
        let t2 = vs2.take(k + 1);
        assert(t1.take(k) =~= vs1.take(k));
        assert(t2.take(k) =~= vs2.take(k));
        lemma_cast_args_none_extends(tree, builtins, lts, vs1, vs2, k + 1, fuel);
    }
}

} // verus!
