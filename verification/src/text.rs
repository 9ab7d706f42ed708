use vstd::prelude::*;
use crate::types::{STypeValue, STypeValueName, TypeValue, TypeValueName, UniqFlag, lemma_type_values_view, type_values_view};

verus! {

/// The decimal digit `d` (below ten) as text.
pub open spec fn digit_text(d: nat) -> Seq<char> {
    if d == 0 {
        "0"@
    } else if d == 1 {
        "1"@
    } else if d == 2 {
        "2"@
    } else if d == 3 {
        "3"@
    } else if d == 4 {
        "4"@
    } else if d == 5 {
        "5"@
    } else if d == 6 {
        "6"@
    } else if d == 7 {
        "7"@
    } else if d == 8 {
        "8"@
    } else {
        "9"@
    }
}

/// The decimal notation of `n`, without leading zeros.
pub open spec fn decimal(n: nat) -> Seq<char>
    decreases n,
{
    if n < 10 {
        digit_text(n)
    } else {
        decimal(n / 10) + digit_text(n % 10)
    }
}

fn digit_str(d: usize) -> (r: &'static str)
    requires
        d < 10,
    ensures
        r@ == digit_text(d as nat),
{
    if d == 0 {
        "0"
    } else if d == 1 {
        "1"
    } else if d == 2 {
        "2"
    } else if d == 3 {
        "3"
    } else if d == 4 {
        "4"
    } else if d == 5 {
        "5"
    } else if d == 6 {
        "6"
    } else if d == 7 {
        "7"
    } else if d == 8 {
        "8"
    } else {
        "9"
    }
}

/// Appends the decimal notation of `n`.
pub fn append_decimal(s: &mut String, n: u128)
    ensures
        final(s)@ == old(s)@ + decimal(n as nat),
    decreases n,
{
    if n >= 10 {
        append_decimal(s, n / 10);
        s.append(digit_str((n % 10) as usize));
        proof {
            assert(final(s)@ =~= old(s)@ + decimal(n as nat));
        }
    } else {
        s.append(digit_str(n as usize));
    }
}

pub open spec fn uniq_prefix(u: UniqFlag) -> Seq<char> {
    if u == UniqFlag::Uniq {
        "uniq "@
    } else {
        Seq::empty()
    }
}

/// The text of a type value where parameters are written `t` followed by their index plus one.
pub open spec fn stv_text(tv: STypeValue) -> Seq<char>
    decreases tv,
{
    match tv {
        STypeValue::Param(u, l) => uniq_prefix(u) + "t"@ + decimal(l.idx as nat + 1),
        STypeValue::Type(u, n, args) => uniq_prefix(u) + match n {
            STypeValueName::Name(id) => if args.len() == 0 {
                id
            } else {
                id + "<"@ + stv_list_text(args) + ">"@
            },
            STypeValueName::Tuple => "("@ + stv_list_text(args) + ")"@,
            STypeValueName::Fun => if args.len() == 0 {
                "()"@
            } else {
                "("@ + stv_list_text(args.drop_last()) + ") -> "@ + stv_text(args.last())
            },
            STypeValueName::Array(Some(k)) => "["@ + stv_list_text(args) + "; "@ + decimal(
                k as nat,
            ) + "]"@,
            STypeValueName::Array(None) => "["@ + stv_list_text(args) + "; _]"@,
        },
    }
}

/// The texts of type values separated by commas.
pub open spec fn stv_list_text(args: Seq<STypeValue>) -> Seq<char>
    decreases args,
{
    if args.len() == 0 {
        Seq::empty()
    } else if args.len() == 1 {
        stv_text(args[0])
    } else {
        stv_list_text(args.drop_last()) + ", "@ + stv_text(args.last())
    }
}

fn append_uniq_prefix(s: &mut String, u: UniqFlag)
    ensures
        final(s)@ == old(s)@ + uniq_prefix(u),
{
    if u == UniqFlag::Uniq {
        s.append("uniq ");
    } else {
        assert(old(s)@ + uniq_prefix(u) =~= old(s)@);
    }
}

/// Appends the texts of the first `end` type values of `args`, separated by commas.
fn append_list_text(s: &mut String, args: &Vec<TypeValue>, end: usize)
    requires
        end <= args@.len(),
    ensures
        final(s)@ == old(s)@ + stv_list_text(type_values_view(args@).take(end as int)),
    decreases args, 0nat,
{
    proof {
        lemma_type_values_view(args@);
    }
    let ghost vs = type_values_view(args@);
    let mut i: usize = 0;
    while i < end
        invariant
            i <= end,
            end <= args@.len(),
            vs == type_values_view(args@),
            vs.len() == args@.len(),
            forall|j: int| 0 <= j < args@.len() ==> #[trigger] vs[j] == args@[j]@,
            s@ == old(s)@ + stv_list_text(vs.take(i as int)),
        decreases end - i,
    {
        proof {
            vstd::std_specs::vec::axiom_vec_index_decreases(*args, i as int);
        }
        let ghost before = s@;
        if i > 0 {
            s.append(", ");
        }
        append_text(s, &args[i]);
        proof {
            let t = vs.take(i + 1);
            assert(t.drop_last() =~= vs.take(i as int));
            assert(t.last() == args@[i as int]@);
            if i == 0 {
                assert(t.len() == 1);
                assert(s@ =~= old(s)@ + stv_list_text(t));
            } else {
                assert(s@ =~= old(s)@ + stv_list_text(t));
            }
        }
        i = i + 1;
    }
}

/// Appends the text of a type value (see `stv_text`).
pub fn append_text(s: &mut String, tv: &TypeValue)
    ensures
        final(s)@ == old(s)@ + stv_text(tv@),
    decreases tv, 1nat,
{
    proof {
        reveal_strlit("t");
    }
    match tv {
        TypeValue::Param(u, l) => {
            append_uniq_prefix(s, *u);
            s.append("t");
            append_decimal(s, l.idx as u128 + 1);
            assert(s@ =~= old(s)@ + stv_text(tv@));
        },
        TypeValue::Type(u, n, args) => {
            proof {
                lemma_type_values_view(args@);
            }
            let ghost vs = type_values_view(args@);
            append_uniq_prefix(s, *u);
            let ghost mid = s@;
            match n {
                TypeValueName::Name(id) => {
                    s.append(id.as_str());
                    if args.len() != 0 {
                        s.append("<");
                        append_list_text(s, args, args.len());
                        s.append(">");
                        assert(vs.take(args@.len() as int) =~= vs);
                    }
                },
                TypeValueName::Tuple => {
                    s.append("(");
                    append_list_text(s, args, args.len());
                    s.append(")");
                    assert(vs.take(args@.len() as int) =~= vs);
                },
                TypeValueName::Fun => {
                    if args.len() == 0 {
                        s.append("()");
                    } else {
                        s.append("(");
                        append_list_text(s, args, args.len() - 1);
                        s.append(") -> ");
                        proof {
                            vstd::std_specs::vec::axiom_vec_index_decreases(*args, args@.len() - 1);
                        }
                        append_text(s, &args[args.len() - 1]);
                        assert(vs.take(args@.len() - 1) =~= vs.drop_last());
                    }
                },
                TypeValueName::Array(k) => {
                    s.append("[");
                    append_list_text(s, args, args.len());
                    assert(vs.take(args@.len() as int) =~= vs);
                    match k {
                        Some(k) => {
                            s.append("; ");
                            append_decimal(s, *k as u128);
                            s.append("]");
                        },
                        None => {
                            s.append("; _]");
                        },
                    }
                },
            }
            assert(s@ =~= old(s)@ + stv_text(tv@));
        },
    }
}

impl TypeValue {
    /// The text of this type value, writing a type parameter as `t` followed by its index plus one.
    pub fn to_string_without_fun(&self) -> (r: String)
        ensures
            r@ == stv_text(self@),
    {
        let mut s = String::new();
        append_text(&mut s, self);
        assert(s@ =~= stv_text(self@));
        s
    }
}

} // verus!
