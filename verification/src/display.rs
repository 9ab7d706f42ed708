use vstd::prelude::*;
use crate::entries::{LocalTypeEntry, SEntry};
use crate::local_types::{LocalTypes, SLocalTypes};
use crate::text::{append_decimal, decimal, stv_text};
use crate::type_matcher::TYPE_DEPTH_LIMIT;
use crate::types::{
    DefinedFlag, LocalType, STypeValue, STypeValueName, TypeValue, TypeValueName, UniqFlag,
    lemma_type_values_view, type_values_view,
};

verus! {

/// The number by which an undefined type parameter numbered `k` is written when `d` type
/// parameters of a defined type come first.
pub open spec fn shown_number(k: usize, d: nat) -> nat {
    if k > d {
        (k - d) as nat
    } else {
        k as nat
    }
}

/// The type value that a type value stands for, to be written: type values that local types
/// are bound to replace them, `fuel` levels deep; a defined type parameter is written by its
/// name; an undefined one by `t` and its number, counted after the parameters of the defined
/// type.
pub open spec fn display_tv(s: SLocalTypes, tv: STypeValue, fuel: nat) -> STypeValue
    decreases fuel, 0nat, 0nat,
{
    if fuel == 0 {
        tv
    } else {
        match s.entry_for(tv) {
            Some(SEntry::Param(DefinedFlag::Defined, u, e, l)) => match e.ident {
                Some(id) => STypeValue::Type(u, STypeValueName::Name(id), Seq::empty()),
                None => STypeValue::Param(u, l),
            },
            Some(SEntry::Param(DefinedFlag::Undefined, u, e, l)) => match e.number {
                Some(k) => STypeValue::Type(
                    u,
                    STypeValueName::Name("t"@ + decimal(shown_number(k, s.orig.len()))),
                    Seq::empty(),
                ),
                None => STypeValue::Param(u, l),
            },
            Some(SEntry::Type(STypeValue::Type(u, n, args))) => STypeValue::Type(
                u,
                n,
                display_list(s, args, (fuel - 1) as nat),
            ),
            _ => tv,
        }
    }
}

/// `display_tv` over a sequence of type values.
pub open spec fn display_list(s: SLocalTypes, args: Seq<STypeValue>, fuel: nat) -> Seq<STypeValue>
    decreases fuel, 1nat, args.len(),
{
    if args.len() == 0 {
        Seq::empty()
    } else {
        display_list(s, args.drop_last(), fuel).push(display_tv(s, args.last(), fuel))
    }
}

pub proof fn lemma_display_list(s: SLocalTypes, args: Seq<STypeValue>, fuel: nat)
    ensures
        display_list(s, args, fuel).len() == args.len(),
        forall|i: int|
            0 <= i < args.len() ==> #[trigger] display_list(s, args, fuel)[i] == display_tv(
                s,
                args[i],
                fuel,
            ),
    decreases args.len(),
{
    if args.len() > 0 {
        lemma_display_list(s, args.drop_last(), fuel);
    }
}

/// The text of a type value that a table of local types gives meaning to: the type that it
/// stands for, with defined type parameters written by name and undefined ones by number.
pub open spec fn lts_text(s: SLocalTypes, tv: STypeValue) -> Seq<char> {
    stv_text(display_tv(s, tv, TYPE_DEPTH_LIMIT as nat))
}

impl LocalTypes {
    /// The type value to write for a type value (see `display_tv`).
    fn display_type_value(&self, tv: &TypeValue, fuel: usize) -> (r: TypeValue)
        requires
            self.wf(),
        ensures
            r@ == display_tv(self@, tv@, fuel as nat),
        decreases fuel,
    {
        if fuel == 0 {
            return tv.duplicate();
        }
        match self.type_entry_for_type_value(tv) {
            Some(LocalTypeEntry::Param(DefinedFlag::Defined, u, e, l)) => match e.ident {
                Some(id) => TypeValue::Type(u, TypeValueName::Name(id), Vec::new()),
                None => TypeValue::Param(u, l),
            },
            Some(LocalTypeEntry::Param(DefinedFlag::Undefined, u, e, l)) => match e.number {
                Some(k) => {
                    let d = self.orig_eq_type_param_set().len();
                    let shown = if k > d {
                        k - d
                    } else {
                        k
                    };
                    let mut name = String::new();
                    name.append("t");
                    append_decimal(&mut name, shown as u128);
                    TypeValue::Type(u, TypeValueName::Name(name), Vec::new())
                },
                None => TypeValue::Param(u, l),
            },
            Some(LocalTypeEntry::Type(TypeValue::Type(u, n, args))) => {
                proof {
                    lemma_type_values_view(args@);
                }
                let ghost vs = type_values_view(args@);
                let mut res: Vec<TypeValue> = Vec::new();
                let mut i: usize = 0;
                while i < args.len()
                    invariant
                        self.wf(),
                        0 < fuel,
                        i <= args@.len(),
                        vs == type_values_view(args@),
                        vs.len() == args@.len(),
                        forall|j: int| 0 <= j < args@.len() ==> #[trigger] vs[j] == args@[j]@,
                        res@.len() == i,
                        forall|j: int|
                            0 <= j < i ==> #[trigger] res@[j]@ == display_tv(
                                self@,
                                vs[j],
                                (fuel - 1) as nat,
                            ),
                    decreases args@.len() - i,
                {
                    let t = self.display_type_value(&args[i], fuel - 1);
                    res.push(t);
                    i = i + 1;
                }
                proof {
                    lemma_type_values_view(res@);
                    lemma_display_list(self@, vs, (fuel - 1) as nat);
                    assert(type_values_view(res@) =~= display_list(self@, vs, (fuel - 1) as nat));
                }
                TypeValue::Type(u, n, res)
            },
            _ => tv.duplicate(),
        }
    }

    /// The text of a type value with the meaning that this table gives it: the type that it
    /// stands for, with defined type parameters written by name and undefined ones by `t` and
    /// their number, counted after the type parameters of the defined type.
    pub fn type_value_to_string(&self, type_value: &TypeValue) -> (r: String)
        requires
            self.wf(),
        ensures
            r@ == lts_text(self@, type_value@),
    {
        let d = self.display_type_value(type_value, TYPE_DEPTH_LIMIT);
        d.to_string_without_fun()
    }

    /// The text of a local type (see `type_value_to_string`).
    pub fn local_type_to_string(&self, local_type: LocalType) -> (r: String)
        requires
            self.wf(),
        ensures
            r@ == lts_text(self@, STypeValue::Param(UniqFlag::NonUniq, local_type)),
    {
        self.type_value_to_string(&TypeValue::Param(UniqFlag::NonUniq, local_type))
    }
}

} // verus!
