use vstd::prelude::*;
use crate::types::{
    FrontendInternalResult, STypeValue, TypeValue, internal_error, lemma_type_values_view,
    lemma_type_values_view_ext, stv_with_uniq, type_values_view,
};

verus! {

/// Whether a type value contains a type parameter.
pub open spec fn stv_has_param(tv: STypeValue) -> bool
    decreases tv,
{
    match tv {
        STypeValue::Param(_, _) => true,
        STypeValue::Type(_, _, args) => stv_list_has_param(args),
    }
}

pub open spec fn stv_list_has_param(args: Seq<STypeValue>) -> bool
    decreases args,
{
    if args.len() == 0 {
        false
    } else {
        stv_list_has_param(args.drop_last()) || stv_has_param(args.last())
    }
}

/// Whether every type parameter of a type value has an index below `n`.
pub open spec fn stv_params_below(tv: STypeValue, n: nat) -> bool
    decreases tv,
{
    match tv {
        STypeValue::Param(_, l) => l.idx < n,
        STypeValue::Type(_, _, args) => stv_list_params_below(args, n),
    }
}

pub open spec fn stv_list_params_below(args: Seq<STypeValue>, n: nat) -> bool
    decreases args,
{
    if args.len() == 0 {
        true
    } else {
        stv_list_params_below(args.drop_last(), n) && stv_params_below(args.last(), n)
    }
}

/// A type value with its `i`-th type parameter replaced by `vals[i]`; a unique parameter makes
/// the replacement unique.
pub open spec fn stv_subst(tv: STypeValue, vals: Seq<STypeValue>) -> STypeValue
    decreases tv,
{
    match tv {
        STypeValue::Param(u, l) => stv_with_uniq(vals[l.idx as int], u),
        STypeValue::Type(u, n, args) => STypeValue::Type(u, n, stv_list_subst(args, vals)),
    }
}

pub open spec fn stv_list_subst(args: Seq<STypeValue>, vals: Seq<STypeValue>) -> Seq<STypeValue>
    decreases args,
{
    if args.len() == 0 {
        Seq::empty()
    } else {
        stv_list_subst(args.drop_last(), vals).push(stv_subst(args.last(), vals))
    }
}

pub proof fn lemma_list_subst(args: Seq<STypeValue>, vals: Seq<STypeValue>)
    ensures
        stv_list_subst(args, vals).len() == args.len(),
        forall|i: int|
            0 <= i < args.len() ==> #[trigger] stv_list_subst(args, vals)[i] == stv_subst(
                args[i],
                vals,
            ),
    decreases args.len(),
{
    if args.len() > 0 {
        lemma_list_subst(args.drop_last(), vals);
    }
}

/// Whether a type value contains a type parameter.
#[verifier::loop_isolation(false)]
pub fn has_param(tv: &TypeValue) -> (r: bool)
    ensures
        r == stv_has_param(tv@),
    decreases tv,
{
    match tv {
        TypeValue::Param(_, _) => true,
        TypeValue::Type(_, _, args) => {
            proof {
                lemma_type_values_view(args@);
            }
            let ghost vs = type_values_view(args@);
            let mut i: usize = 0;
            let mut found = false;
            while i < args.len()
                invariant
                    i <= args@.len(),
                    vs == type_values_view(args@),
                    vs.len() == args@.len(),
                    forall|j: int| 0 <= j < args@.len() ==> #[trigger] vs[j] == args@[j]@,
                    found == stv_list_has_param(vs.take(i as int)),
                decreases args@.len() - i,
            {
                proof {
                    vstd::std_specs::vec::axiom_vec_index_decreases(*args, i as int);
                }
                let b = has_param(&args[i]);
                proof {
                    assert(vs.take(i + 1).drop_last() =~= vs.take(i as int));
                }
                found = found || b;
                i = i + 1;
            }
            assert(vs.take(args@.len() as int) =~= vs);
            found
        },
    }
}

/// The substitution of `vals` into a type value, or `None` where a parameter has no value.
#[verifier::loop_isolation(false)]
pub fn subst_values(tv: &TypeValue, vals: &[TypeValue]) -> (r: Option<TypeValue>)
    ensures
        r is Some <==> stv_params_below(tv@, vals@.len()),
        r matches Some(t) ==> t@ == stv_subst(tv@, type_values_view(vals@)),
    decreases tv,
{
    proof {
        lemma_type_values_view(vals@);
    }
    match tv {
        TypeValue::Param(u, l) => {
            if l.idx < vals.len() {
                Some(vals[l.idx].with_uniq(*u))
            } else {
                None
            }
        },
        TypeValue::Type(u, n, args) => {
            proof {
                lemma_type_values_view(args@);
            }
            let ghost vs = type_values_view(args@);
            let ghost ws = type_values_view(vals@);
            let mut res: Vec<TypeValue> = Vec::new();
            let mut i: usize = 0;
            while i < args.len()
                invariant
                    i <= args@.len(),
                    vs == type_values_view(args@),
                    ws == type_values_view(vals@),
                    vs.len() == args@.len(),
                    forall|j: int| 0 <= j < args@.len() ==> #[trigger] vs[j] == args@[j]@,
                    stv_list_params_below(vs.take(i as int), vals@.len()),
                    res@.len() == i,
                    forall|j: int|
                        0 <= j < i ==> #[trigger] res@[j]@ == stv_subst(vs[j], ws),
                decreases args@.len() - i,
            {
                proof {
                    vstd::std_specs::vec::axiom_vec_index_decreases(*args, i as int);
                }
                let r = subst_values(&args[i], vals);
                proof {
                    assert(vs.take(i + 1).drop_last() =~= vs.take(i as int));
                }
                match r {
                    Some(t) => {
                        res.push(t);
                    },
                    None => {
                        proof {
                            assert(vs.take(i + 1).last() == vs[i as int]);
                            lemma_list_params_below_prefix(vs, i as int, args@.len() as int, vals@.len());
                            assert(vs.take(args@.len() as int) =~= vs);
                        }
                        return None;
                    },
                }
                i = i + 1;
            }
            proof {
                assert(vs.take(args@.len() as int) =~= vs);
                lemma_list_subst(vs, ws);
                lemma_type_values_view(res@);
                assert(type_values_view(res@) =~= stv_list_subst(vs, ws));
            }
            Some(TypeValue::Type(*u, n.duplicate(), res))
        },
    }
}

/// Parameters below a bound in a sequence are below it in each prefix, and the element at `i`
/// is then below the bound too.
pub proof fn lemma_list_params_below_prefix(vs: Seq<STypeValue>, i: int, k: int, n: nat)
    requires
        0 <= i < k <= vs.len(),
        !stv_list_params_below(vs.take(i + 1), n),
        stv_list_params_below(vs.take(i), n),
    ensures
        !stv_list_params_below(vs.take(k), n),
    decreases k - i,
{
    if k == i + 1 {
    } else {
        lemma_list_params_below_prefix(vs, i, k - 1, n);
        assert(vs.take(k).drop_last() =~= vs.take(k - 1));
    }
}

impl TypeValue {
    /// Replaces each type parameter `i` of this type value by `type_values[i]`; `None` when the
    /// type value holds no type parameter; an error when a parameter has no replacement.
    pub fn substitute(&self, type_values: &[TypeValue]) -> (r: FrontendInternalResult<
        Option<TypeValue>,
    >)
        ensures
            r is Err <==> !stv_params_below(self@, type_values@.len()),
            r matches Ok(None) ==> !stv_has_param(self@),
            r matches Ok(Some(t)) ==> stv_has_param(self@) && t@ == stv_subst(
                self@,
                type_values_view(type_values@),
            ),
    {
        match subst_values(self, type_values) {
            Some(t) => {
                if has_param(self) {
                    Ok(Some(t))
                } else {
                    Ok(None)
                }
            },
            None => Err(internal_error("substitute: no type value for type parameter")),
        }
    }
}

} // verus!
