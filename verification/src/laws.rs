//! Spelling equivalence, proved at the parser.
//!
//! Every fixed token has several surface spellings; substituting one for
//! another changes token spans but not the token tags or name payloads.
//! The lemmas here show that the parser cannot tell the difference: two
//! item streams that agree once spans are dropped parse to the same
//! program whenever either parses at all, and fail together otherwise.

use crate::ast::ExprModel;
use crate::error::ErrorModel;
use crate::parser::{
    spec_parse_binding, spec_parse_binding_typed, spec_parse_e_and, spec_parse_e_and_tail,
    spec_parse_e_app, spec_parse_e_app_tail, spec_parse_e_atom, spec_parse_e_iff,
    spec_parse_e_iff_tail, spec_parse_e_imp, spec_parse_e_or, spec_parse_e_or_tail,
    spec_parse_e_un, spec_parse_expr, spec_parse_lambda, spec_parse_lambda_typed,
    spec_parse_paren, spec_parse_program, spec_parse_typ, PEModel,
};
use crate::token_wrap::{LexItem, TokenModel};
use vstd::prelude::*;

verus! {

/// A stream item without its span: the token's tag and payload, or the
/// bare fact of an unrecognized run.
pub enum ItemShape {
    Tok(TokenModel),
    Bad,
}

/// The shape of one item.
pub open spec fn item_shape(it: LexItem) -> ItemShape {
    match it {
        LexItem::Tok { start, token, end } => ItemShape::Tok(token),
        LexItem::Bad { start, end } => ItemShape::Bad,
    }
}

/// The stream with every span dropped.
pub open spec fn despan(items: Seq<LexItem>) -> Seq<ItemShape> {
    items.map(|k: int, it: LexItem| item_shape(it))
}

/// Two parse outcomes agree up to failure detail: they succeed together
/// with the same value, or fail together.
pub open spec fn agree<T>(
    ra: Result<(T, int), ErrorModel>,
    rb: Result<(T, int), ErrorModel>,
    lo: int,
    n: int,
) -> bool {
    match (ra, rb) {
        (Ok(x), Ok(y)) => x == y && lo <= x.1 <= n,
        (Err(ea), Err(eb)) => true,
        _ => false,
    }
}

proof fn lemma_despan_len(a: Seq<LexItem>, b: Seq<LexItem>)
    requires
        despan(a) == despan(b),
    ensures
        a.len() == b.len(),
{
    assert(despan(a).len() == a.len());
    assert(despan(b).len() == b.len());
}

proof fn lemma_despan_index(a: Seq<LexItem>, b: Seq<LexItem>, i: int)
    requires
        despan(a) == despan(b),
        0 <= i < a.len(),
    ensures
        a.len() == b.len(),
        item_shape(a[i]) == item_shape(b[i]),
{
    lemma_despan_len(a, b);
    assert(despan(a)[i] == item_shape(a[i]));
    assert(despan(b)[i] == item_shape(b[i]));
}

#[verifier::rlimit(100)]
#[verifier::spinoff_prover]
proof fn lemma_despan_paren(a: Seq<LexItem>, b: Seq<LexItem>, eofa: int, eofb: int, i: int)
    requires
        despan(a) == despan(b),
        0 <= i < a.len(),
    ensures
        agree(spec_parse_paren(a, eofa, i), spec_parse_paren(b, eofb, i), i, a.len() as int),
    decreases a.len() - i, 0int,
{
    reveal_with_fuel(spec_parse_paren, 1);
    reveal_with_fuel(spec_parse_expr, 1);
    reveal_with_fuel(spec_parse_lambda, 1);
    reveal_with_fuel(spec_parse_e_iff, 1);
    lemma_despan_len(a, b);
    lemma_despan_expr(a, b, eofa, eofb, i + 1);
    match spec_parse_expr(a, eofa, i + 1) {
        Err(_) => {},
        Ok((ex, j)) => {
            if j < a.len() {
                lemma_despan_index(a, b, j);
            }
        },
    }
}

#[verifier::rlimit(100)]
#[verifier::spinoff_prover]
proof fn lemma_despan_atom(a: Seq<LexItem>, b: Seq<LexItem>, eofa: int, eofb: int, i: int)
    requires
        despan(a) == despan(b),
        0 <= i <= a.len(),
    ensures
        agree(spec_parse_e_atom(a, eofa, i), spec_parse_e_atom(b, eofb, i), i, a.len() as int),
    decreases a.len() - i, 1int,
{
    reveal_with_fuel(spec_parse_e_atom, 1);
    reveal_with_fuel(spec_parse_paren, 1);
    lemma_despan_len(a, b);
    if i < a.len() {
        lemma_despan_index(a, b, i);
        match a[i] {
            LexItem::Bad { .. } => {},
            LexItem::Tok { token, .. } => {
                if token is LParen {
                    lemma_despan_paren(a, b, eofa, eofb, i);
                }
            },
        }
    }
}

#[verifier::rlimit(100)]
#[verifier::spinoff_prover]
proof fn lemma_despan_app_tail(
    a: Seq<LexItem>,
    b: Seq<LexItem>,
    eofa: int,
    eofb: int,
    acc: PEModel,
    i: int,
)
    requires
        despan(a) == despan(b),
        0 <= i <= a.len(),
    ensures
        agree(
            spec_parse_e_app_tail(a, eofa, acc, i),
            spec_parse_e_app_tail(b, eofb, acc, i),
            i,
            a.len() as int,
        ),
    decreases a.len() - i, 2int,
{
    reveal_with_fuel(spec_parse_e_app_tail, 1);
    reveal_with_fuel(spec_parse_e_atom, 1);
    lemma_despan_len(a, b);
    if i < a.len() {
        lemma_despan_index(a, b, i);
        match a[i] {
            LexItem::Bad { .. } => {},
            LexItem::Tok { token, .. } => {
                if crate::parser::is_atom_start(token) {
                    lemma_despan_atom(a, b, eofa, eofb, i);
                    match spec_parse_e_atom(a, eofa, i) {
                        Err(_) => {},
                        Ok((rhs, j)) => {
                            let acc2 = PEModel::E(
                                ExprModel::App(
                                    Box::new(crate::parser::pe_to_expr(acc)),
                                    Box::new(crate::parser::pe_to_expr(rhs)),
                                ),
                            );
                            lemma_despan_app_tail(
                                a,
                                b,
                                eofa,
                                eofb,
                                acc2,
                                crate::parser::step_to(i, j, a.len() as int),
                            );
                        },
                    }
                }
            },
        }
    }
}

#[verifier::rlimit(100)]
#[verifier::spinoff_prover]
proof fn lemma_despan_app(a: Seq<LexItem>, b: Seq<LexItem>, eofa: int, eofb: int, i: int)
    requires
        despan(a) == despan(b),
        0 <= i <= a.len(),
    ensures
        agree(spec_parse_e_app(a, eofa, i), spec_parse_e_app(b, eofb, i), i, a.len() as int),
    decreases a.len() - i, 3int,
{
    reveal_with_fuel(spec_parse_e_app, 1);
    reveal_with_fuel(spec_parse_e_atom, 1);
    reveal_with_fuel(spec_parse_e_app_tail, 1);
    lemma_despan_len(a, b);
    lemma_despan_atom(a, b, eofa, eofb, i);
    match spec_parse_e_atom(a, eofa, i) {
        Err(_) => {},
        Ok((first, j)) => {
            lemma_despan_app_tail(
                a,
                b,
                eofa,
                eofb,
                first,
                crate::parser::step_to(i, j, a.len() as int),
            );
        },
    }
}

#[verifier::rlimit(100)]
#[verifier::spinoff_prover]
proof fn lemma_despan_un(a: Seq<LexItem>, b: Seq<LexItem>, eofa: int, eofb: int, i: int)
    requires
        despan(a) == despan(b),
        0 <= i <= a.len(),
    ensures
        agree(spec_parse_e_un(a, eofa, i), spec_parse_e_un(b, eofb, i), i, a.len() as int),
    decreases a.len() - i, 4int,
{
    reveal_with_fuel(spec_parse_e_un, 1);
    reveal_with_fuel(spec_parse_e_app, 1);
    lemma_despan_len(a, b);
    if i < a.len() {
        lemma_despan_index(a, b, i);
        match a[i] {
            LexItem::Bad { .. } => {},
            LexItem::Tok { token, .. } => {
                if token is Neg {
                    lemma_despan_un(a, b, eofa, eofb, i + 1);
                } else {
                    lemma_despan_app(a, b, eofa, eofb, i);
                }
            },
        }
    }
}

#[verifier::rlimit(100)]
#[verifier::spinoff_prover]
proof fn lemma_despan_and_tail(
    a: Seq<LexItem>,
    b: Seq<LexItem>,
    eofa: int,
    eofb: int,
    acc: PEModel,
    i: int,
)
    requires
        despan(a) == despan(b),
        0 <= i <= a.len(),
    ensures
        agree(
            spec_parse_e_and_tail(a, eofa, acc, i),
            spec_parse_e_and_tail(b, eofb, acc, i),
            i,
            a.len() as int,
        ),
    decreases a.len() - i, 5int,
{
    reveal_with_fuel(spec_parse_e_and_tail, 1);
    reveal_with_fuel(spec_parse_e_un, 1);
    lemma_despan_len(a, b);
    if i < a.len() {
        lemma_despan_index(a, b, i);
        match a[i] {
            LexItem::Bad { .. } => {},
            LexItem::Tok { token, .. } => {
                if token is Conj && crate::parser::pe_to_prop(acc) is Some {
                    lemma_despan_un(a, b, eofa, eofb, i + 1);
                    match spec_parse_e_un(a, eofa, i + 1) {
                        Err(_) => {},
                        Ok((rpe, j)) => {
                            if crate::parser::pe_to_prop(rpe) is Some {
                                let l = crate::parser::pe_to_prop(acc)->Some_0;
                                let r = crate::parser::pe_to_prop(rpe)->Some_0;
                                lemma_despan_and_tail(
                                    a,
                                    b,
                                    eofa,
                                    eofb,
                                    PEModel::P(
                                        crate::ast::PropModel::And(Box::new(l), Box::new(r)),
                                    ),
                                    crate::parser::step_to(i, j, a.len() as int),
                                );
                            }
                        },
                    }
                }
            },
        }
    }
}

#[verifier::rlimit(100)]
#[verifier::spinoff_prover]
proof fn lemma_despan_and(a: Seq<LexItem>, b: Seq<LexItem>, eofa: int, eofb: int, i: int)
    requires
        despan(a) == despan(b),
        0 <= i <= a.len(),
    ensures
        agree(spec_parse_e_and(a, eofa, i), spec_parse_e_and(b, eofb, i), i, a.len() as int),
    decreases a.len() - i, 6int,
{
    reveal_with_fuel(spec_parse_e_and, 1);
    reveal_with_fuel(spec_parse_e_un, 1);
    reveal_with_fuel(spec_parse_e_and_tail, 1);
    lemma_despan_len(a, b);
    lemma_despan_un(a, b, eofa, eofb, i);
    match spec_parse_e_un(a, eofa, i) {
        Err(_) => {},
        Ok((first, j)) => {
            lemma_despan_and_tail(
                a,
                b,
                eofa,
                eofb,
                first,
                crate::parser::step_to(i, j, a.len() as int),
            );
        },
    }
}

#[verifier::rlimit(100)]
#[verifier::spinoff_prover]
proof fn lemma_despan_or_tail(
    a: Seq<LexItem>,
    b: Seq<LexItem>,
    eofa: int,
    eofb: int,
    acc: PEModel,
    i: int,
)
    requires
        despan(a) == despan(b),
        0 <= i <= a.len(),
    ensures
        agree(
            spec_parse_e_or_tail(a, eofa, acc, i),
            spec_parse_e_or_tail(b, eofb, acc, i),
            i,
            a.len() as int,
        ),
    decreases a.len() - i, 7int,
{
    reveal_with_fuel(spec_parse_e_or_tail, 1);
    reveal_with_fuel(spec_parse_e_and, 1);
    lemma_despan_len(a, b);
    if i < a.len() {
        lemma_despan_index(a, b, i);
        match a[i] {
            LexItem::Bad { .. } => {},
            LexItem::Tok { token, .. } => {
                if token is Disj && crate::parser::pe_to_prop(acc) is Some {
                    lemma_despan_and(a, b, eofa, eofb, i + 1);
                    match spec_parse_e_and(a, eofa, i + 1) {
                        Err(_) => {},
                        Ok((rpe, j)) => {
                            if crate::parser::pe_to_prop(rpe) is Some {
                                let l = crate::parser::pe_to_prop(acc)->Some_0;
                                let r = crate::parser::pe_to_prop(rpe)->Some_0;
                                lemma_despan_or_tail(
                                    a,
                                    b,
                                    eofa,
                                    eofb,
                                    PEModel::P(
                                        crate::ast::PropModel::Or(Box::new(l), Box::new(r)),
                                    ),
                                    crate::parser::step_to(i, j, a.len() as int),
                                );
                            }
                        },
                    }
                }
            },
        }
    }
}

#[verifier::rlimit(100)]
#[verifier::spinoff_prover]
proof fn lemma_despan_or(a: Seq<LexItem>, b: Seq<LexItem>, eofa: int, eofb: int, i: int)
    requires
        despan(a) == despan(b),
        0 <= i <= a.len(),
    ensures
        agree(spec_parse_e_or(a, eofa, i), spec_parse_e_or(b, eofb, i), i, a.len() as int),
    decreases a.len() - i, 8int,
{
    reveal_with_fuel(spec_parse_e_or, 1);
    reveal_with_fuel(spec_parse_e_and, 1);
    reveal_with_fuel(spec_parse_e_or_tail, 1);
    lemma_despan_len(a, b);
    lemma_despan_and(a, b, eofa, eofb, i);
    match spec_parse_e_and(a, eofa, i) {
        Err(_) => {},
        Ok((first, j)) => {
            lemma_despan_or_tail(
                a,
                b,
                eofa,
                eofb,
                first,
                crate::parser::step_to(i, j, a.len() as int),
            );
        },
    }
}

#[verifier::rlimit(100)]
#[verifier::spinoff_prover]
proof fn lemma_despan_imp(a: Seq<LexItem>, b: Seq<LexItem>, eofa: int, eofb: int, i: int)
    requires
        despan(a) == despan(b),
        0 <= i <= a.len(),
    ensures
        agree(spec_parse_e_imp(a, eofa, i), spec_parse_e_imp(b, eofb, i), i, a.len() as int),
    decreases a.len() - i, 9int,
{
    reveal_with_fuel(spec_parse_e_imp, 1);
    reveal_with_fuel(spec_parse_e_or, 1);
    lemma_despan_len(a, b);
    if i < a.len() {
        lemma_despan_or(a, b, eofa, eofb, i);
        match spec_parse_e_or(a, eofa, i) {
            Err(_) => {},
            Ok((lpe, j)) => {
                if j < a.len() {
                    lemma_despan_index(a, b, j);
                    match a[j] {
                        LexItem::Bad { .. } => {},
                        LexItem::Tok { token, .. } => {
                            if token is Arrow && crate::parser::pe_to_prop(lpe) is Some {
                                lemma_despan_imp(
                                    a,
                                    b,
                                    eofa,
                                    eofb,
                                    crate::parser::step_to(i, j + 1, a.len() as int),
                                );
                            }
                        },
                    }
                }
            },
        }
    }
}

#[verifier::rlimit(100)]
#[verifier::spinoff_prover]
proof fn lemma_despan_iff_tail(
    a: Seq<LexItem>,
    b: Seq<LexItem>,
    eofa: int,
    eofb: int,
    acc: PEModel,
    i: int,
)
    requires
        despan(a) == despan(b),
        0 <= i <= a.len(),
    ensures
        agree(
            spec_parse_e_iff_tail(a, eofa, acc, i),
            spec_parse_e_iff_tail(b, eofb, acc, i),
            i,
            a.len() as int,
        ),
    decreases a.len() - i, 10int,
{
    reveal_with_fuel(spec_parse_e_iff_tail, 1);
    reveal_with_fuel(spec_parse_e_imp, 1);
    lemma_despan_len(a, b);
    if i < a.len() {
        lemma_despan_index(a, b, i);
        match a[i] {
            LexItem::Bad { .. } => {},
            LexItem::Tok { token, .. } => {
                if token is Iff && crate::parser::pe_to_prop(acc) is Some {
                    lemma_despan_imp(a, b, eofa, eofb, i + 1);
                    match spec_parse_e_imp(a, eofa, i + 1) {
                        Err(_) => {},
                        Ok((rpe, j)) => {
                            if crate::parser::pe_to_prop(rpe) is Some {
                                let l = crate::parser::pe_to_prop(acc)->Some_0;
                                let r = crate::parser::pe_to_prop(rpe)->Some_0;
                                lemma_despan_iff_tail(
                                    a,
                                    b,
                                    eofa,
                                    eofb,
                                    PEModel::P(
                                        crate::ast::PropModel::Iff(Box::new(l), Box::new(r)),
                                    ),
                                    crate::parser::step_to(i, j, a.len() as int),
                                );
                            }
                        },
                    }
                }
            },
        }
    }
}

#[verifier::rlimit(100)]
#[verifier::spinoff_prover]
proof fn lemma_despan_iff(a: Seq<LexItem>, b: Seq<LexItem>, eofa: int, eofb: int, i: int)
    requires
        despan(a) == despan(b),
        0 <= i <= a.len(),
    ensures
        agree(spec_parse_e_iff(a, eofa, i), spec_parse_e_iff(b, eofb, i), i, a.len() as int),
    decreases a.len() - i, 11int,
{
    reveal_with_fuel(spec_parse_e_iff, 1);
    reveal_with_fuel(spec_parse_e_imp, 1);
    reveal_with_fuel(spec_parse_e_iff_tail, 1);
    lemma_despan_len(a, b);
    lemma_despan_imp(a, b, eofa, eofb, i);
    match spec_parse_e_imp(a, eofa, i) {
        Err(_) => {},
        Ok((first, j)) => {
            lemma_despan_iff_tail(
                a,
                b,
                eofa,
                eofb,
                first,
                crate::parser::step_to(i, j, a.len() as int),
            );
        },
    }
}

#[verifier::rlimit(100)]
#[verifier::spinoff_prover]
proof fn lemma_despan_typ(a: Seq<LexItem>, b: Seq<LexItem>, eofa: int, eofb: int, i: int)
    requires
        despan(a) == despan(b),
        0 <= i <= a.len(),
    ensures
        agree(spec_parse_typ(a, eofa, i), spec_parse_typ(b, eofb, i), i, a.len() as int),
    decreases a.len() - i, 12int,
{
    reveal_with_fuel(spec_parse_typ, 1);
    reveal_with_fuel(spec_parse_e_iff, 1);
    lemma_despan_len(a, b);
    lemma_despan_iff(a, b, eofa, eofb, i);
    if i < a.len() {
        lemma_despan_index(a, b, i);
    }
}

#[verifier::rlimit(100)]
#[verifier::spinoff_prover]
proof fn lemma_despan_lambda_typed(
    a: Seq<LexItem>,
    b: Seq<LexItem>,
    eofa: int,
    eofb: int,
    name: Seq<char>,
    i: int,
)
    requires
        despan(a) == despan(b),
        0 <= i,
        i + 3 <= a.len(),
    ensures
        agree(
            spec_parse_lambda_typed(a, eofa, name, i),
            spec_parse_lambda_typed(b, eofb, name, i),
            i,
            a.len() as int,
        ),
    decreases a.len() - i, 12int,
{
    reveal_with_fuel(spec_parse_lambda_typed, 1);
    reveal_with_fuel(spec_parse_typ, 1);
    reveal_with_fuel(spec_parse_expr, 1);
    reveal_with_fuel(spec_parse_lambda, 1);
    reveal_with_fuel(spec_parse_e_iff, 1);
    lemma_despan_len(a, b);
    lemma_despan_typ(a, b, eofa, eofb, i + 3);
    match spec_parse_typ(a, eofa, i + 3) {
        Err(_) => {},
        Ok((ty, j)) => {
            if j < a.len() {
                lemma_despan_index(a, b, j);
                match a[j] {
                    LexItem::Bad { .. } => {},
                    LexItem::Tok { token, .. } => {
                        if token is Dot {
                            lemma_despan_expr(
                                a,
                                b,
                                eofa,
                                eofb,
                                crate::parser::step_to(i, j + 1, a.len() as int),
                            );
                        }
                    },
                }
            }
        },
    }
}

#[verifier::rlimit(100)]
#[verifier::spinoff_prover]
proof fn lemma_despan_lambda(a: Seq<LexItem>, b: Seq<LexItem>, eofa: int, eofb: int, i: int)
    requires
        despan(a) == despan(b),
        0 <= i < a.len(),
    ensures
        agree(spec_parse_lambda(a, eofa, i), spec_parse_lambda(b, eofb, i), i, a.len() as int),
    decreases a.len() - i, 13int,
{
    reveal_with_fuel(spec_parse_lambda, 1);
    reveal_with_fuel(spec_parse_lambda_typed, 1);
    reveal_with_fuel(spec_parse_expr, 1);
    reveal_with_fuel(spec_parse_lambda, 1);
    reveal_with_fuel(spec_parse_e_iff, 1);
    lemma_despan_len(a, b);
    if i + 1 < a.len() {
        lemma_despan_index(a, b, i + 1);
        match a[i + 1] {
            LexItem::Bad { .. } => {},
            LexItem::Tok { token: t1, .. } => {
                match t1 {
                    TokenModel::Name(name) => {
                        if i + 2 < a.len() {
                            lemma_despan_index(a, b, i + 2);
                            match a[i + 2] {
                                LexItem::Bad { .. } => {},
                                LexItem::Tok { token: t2, .. } => {
                                    if t2 is Colon {
                                        lemma_despan_lambda_typed(a, b, eofa, eofb, name, i);
                                    } else if t2 is Dot {
                                        lemma_despan_expr(a, b, eofa, eofb, i + 3);
                                    }
                                },
                            }
                        }
                    },
                    _ => {},
                }
            },
        }
    }
}

#[verifier::rlimit(100)]
#[verifier::spinoff_prover]
proof fn lemma_despan_expr(a: Seq<LexItem>, b: Seq<LexItem>, eofa: int, eofb: int, i: int)
    requires
        despan(a) == despan(b),
        0 <= i <= a.len(),
    ensures
        agree(spec_parse_expr(a, eofa, i), spec_parse_expr(b, eofb, i), i, a.len() as int),
    decreases a.len() - i, 14int,
{
    reveal_with_fuel(spec_parse_expr, 1);
    reveal_with_fuel(spec_parse_lambda, 1);
    reveal_with_fuel(spec_parse_e_iff, 1);
    lemma_despan_len(a, b);
    if i < a.len() {
        lemma_despan_index(a, b, i);
        match a[i] {
            LexItem::Bad { .. } => {},
            LexItem::Tok { token, .. } => {
                if token is Abs {
                    lemma_despan_lambda(a, b, eofa, eofb, i);
                } else {
                    lemma_despan_iff(a, b, eofa, eofb, i);
                }
            },
        }
    }
}

#[verifier::rlimit(100)]
#[verifier::spinoff_prover]
proof fn lemma_despan_binding_typed(
    a: Seq<LexItem>,
    b: Seq<LexItem>,
    eofa: int,
    eofb: int,
    name: Seq<char>,
    i: int,
)
    requires
        despan(a) == despan(b),
        0 <= i,
        i + 2 <= a.len(),
    ensures
        agree(
            spec_parse_binding_typed(a, eofa, name, i),
            spec_parse_binding_typed(b, eofb, name, i),
            i,
            a.len() as int,
        ),
    decreases a.len() - i, 15int,
{
    reveal_with_fuel(spec_parse_binding_typed, 1);
    reveal_with_fuel(spec_parse_typ, 1);
    reveal_with_fuel(spec_parse_expr, 1);
    lemma_despan_len(a, b);
    lemma_despan_typ(a, b, eofa, eofb, i + 2);
    match spec_parse_typ(a, eofa, i + 2) {
        Err(_) => {},
        Ok((ty, j)) => {
            if j < a.len() {
                lemma_despan_index(a, b, j);
                match a[j] {
                    LexItem::Bad { .. } => {},
                    LexItem::Tok { token, .. } => {
                        if token is Def {
                            lemma_despan_expr(
                                a,
                                b,
                                eofa,
                                eofb,
                                crate::parser::step_to(i, j + 1, a.len() as int),
                            );
                        }
                    },
                }
            }
        },
    }
}

#[verifier::rlimit(100)]
#[verifier::spinoff_prover]
proof fn lemma_despan_binding(a: Seq<LexItem>, b: Seq<LexItem>, eofa: int, eofb: int, i: int)
    requires
        despan(a) == despan(b),
        0 <= i <= a.len(),
    ensures
        agree(spec_parse_binding(a, eofa, i), spec_parse_binding(b, eofb, i), i, a.len() as int),
    decreases a.len() - i, 16int,
{
    reveal_with_fuel(spec_parse_binding, 1);
    reveal_with_fuel(spec_parse_binding_typed, 1);
    reveal_with_fuel(spec_parse_expr, 1);
    lemma_despan_len(a, b);
    if i < a.len() {
        lemma_despan_index(a, b, i);
        match a[i] {
            LexItem::Bad { .. } => {},
            LexItem::Tok { token, .. } => {
                match token {
                    TokenModel::Name(name) => {
                        if i + 1 < a.len() {
                            lemma_despan_index(a, b, i + 1);
                            match a[i + 1] {
                                LexItem::Bad { .. } => {},
                                LexItem::Tok { token: t1, .. } => {
                                    if t1 is Colon {
                                        lemma_despan_binding_typed(a, b, eofa, eofb, name, i);
                                    } else if t1 is Def {
                                        lemma_despan_expr(a, b, eofa, eofb, i + 2);
                                    }
                                },
                            }
                        }
                    },
                    _ => {},
                }
            },
        }
    }
}

/// The law itself, at the whole-program level: two item streams that agree
/// once spans are dropped yield the same program on success, and fail
/// together on failure, whatever the spans and end-of-input locations were.
#[verifier::rlimit(100)]
#[verifier::spinoff_prover]
pub proof fn lemma_despan_program(a: Seq<LexItem>, b: Seq<LexItem>, eofa: int, eofb: int, i: int)
    requires
        despan(a) == despan(b),
        0 <= i <= a.len(),
    ensures
        match (spec_parse_program(a, eofa, i), spec_parse_program(b, eofb, i)) {
            (Ok(x), Ok(y)) => x == y,
            (Err(ea), Err(eb)) => true,
            _ => false,
        },
    decreases a.len() - i, 17int,
{
    reveal_with_fuel(spec_parse_program, 1);
    reveal_with_fuel(spec_parse_binding, 1);
    lemma_despan_len(a, b);
    if i < a.len() {
        lemma_despan_binding(a, b, eofa, eofb, i);
        match spec_parse_binding(a, eofa, i) {
            Err(_) => {},
            Ok((bm, j)) => {
                if j < a.len() {
                    lemma_despan_index(a, b, j);
                    match a[j] {
                        LexItem::Bad { .. } => {},
                        LexItem::Tok { token, .. } => {
                            if token is Semi {
                                lemma_despan_program(
                                    a,
                                    b,
                                    eofa,
                                    eofb,
                                    crate::parser::step_to(i, j + 1, a.len() as int),
                                );
                            }
                        },
                    }
                }
            },
        }
    }
}

} // verus!
