//! Recursive-descent parser for the notation.
//!
//! A program is a possibly empty, `;`-separated sequence of top-level
//! bindings, with a trailing separator allowed.  A binding is a name with an
//! optional `:` type annotation and an optional `≔` definition.  Expressions
//! are lambda abstractions, applications (left-associative, binding tighter
//! than every connective) and propositions; proposition operators bind, from
//! loosest to tightest: `↔` (left), `→` (right), `∨` (left), `∧` (left),
//! `¬` (prefix).  Atoms are `⊤`, names, and parenthesized expressions.
//!
//! The whole grammar is defined by the `spec_parse_*` functions below over
//! the emitted item stream; each executable parser is proved to return
//! exactly what its spec function says.  A lexical error item is reported
//! the moment the parser would have to read it.

use crate::ast::{
    Binding, BindingModel, Expr, ExprModel, Prop, PropModel, Typ, TypModel,
};
use crate::error::{Error, ErrorModel};
use crate::token_wrap::{
    spec_items, item_view, items_view, LexItem, LexicalError, Token, TokenModel, tokenize,
};
use vstd::prelude::*;
use vstd::string::{StringSliceAdditionalSpecFns, StringExecFns};

verus! {

/// Descriptions of what may begin an atom.
pub open spec fn exp_atom_s() -> Seq<Seq<char>> {
    seq!["("@, "a name"@, "¬"@, "⊤"@, "ⲗ"@]
}

/// Description of a proposition operand.
pub open spec fn exp_prop_s() -> Seq<Seq<char>> {
    seq!["a proposition"@]
}

/// Description of a binding name.
pub open spec fn exp_name_s() -> Seq<Seq<char>> {
    seq!["a name"@]
}

/// Description of the statement separator.
pub open spec fn exp_semi_s() -> Seq<Seq<char>> {
    seq![";"@]
}

/// Description of a closing parenthesis.
pub open spec fn exp_rparen_s() -> Seq<Seq<char>> {
    seq![")"@]
}

/// Description of the binder dot.
pub open spec fn exp_dot_s() -> Seq<Seq<char>> {
    seq!["."@]
}

/// Descriptions of what may follow a binder name.
pub open spec fn exp_dot_colon_s() -> Seq<Seq<char>> {
    seq!["."@, ":"@]
}

/// An unexpected-end-of-input failure.
pub open spec fn eof_err(eof: int, exp: Seq<Seq<char>>) -> ErrorModel {
    ErrorModel::UnrecognizedEOF { location: eof, expected: exp }
}

/// An unexpected-token failure.
pub open spec fn tok_err(s: int, t: TokenModel, e: int, exp: Seq<Seq<char>>) -> ErrorModel {
    ErrorModel::UnrecognizedToken { start: s, token: t, end: e, expected: exp }
}

/// A lexical failure surfaced to the parser.
pub open spec fn bad_err(s: int, e: int) -> ErrorModel {
    ErrorModel::User { start: s, end: e }
}

/// A parsed operand that is still either a bare proposition or a full
/// expression; connectives demand the former, applications the latter.
pub enum PEModel {
    P(PropModel),
    E(ExprModel),
}

/// Every operand can be read as an expression.
pub open spec fn pe_to_expr(pe: PEModel) -> ExprModel {
    match pe {
        PEModel::P(p) => ExprModel::Prop(Box::new(p)),
        PEModel::E(e) => e,
    }
}

/// Only a bare proposition can be read as a proposition.
pub open spec fn pe_to_prop(pe: PEModel) -> Option<PropModel> {
    match pe {
        PEModel::P(p) => Option::Some(p),
        PEModel::E(_) => Option::None,
    }
}

/// True for tokens that may begin an application operand.
pub open spec fn is_atom_start(t: TokenModel) -> bool {
    t is LParen || t is Top || t is Name
}

/// The next index after `i` given a sub-parse that ended at `j`: `j` itself
/// in every reachable case, clamped so that it provably advances and stays
/// inside the stream.
pub open spec fn step_to(i: int, j: int, n: int) -> int {
    let k = if j > i {
        j
    } else {
        i + 1
    };
    if k > n {
        n
    } else {
        k
    }
}

/// Parses a parenthesized expression whose opening parenthesis sits at `i`.
/// A parenthesized proposition stays a proposition.
#[verifier::opaque]
pub open spec fn spec_parse_paren(items: Seq<LexItem>, eof: int, i: int) -> Result<
    (PEModel, int),
    ErrorModel,
>
    decreases items.len() - i, 0int,
    when 0 <= i < items.len()
{
    match spec_parse_expr(items, eof, i + 1) {
        Err(e) => Err(e),
        Ok((ex, j)) => if j >= items.len() {
            Err(eof_err(eof, exp_rparen_s()))
        } else {
            match items[j] {
                LexItem::Bad { start, end } => Err(bad_err(start, end)),
                LexItem::Tok { start: s2, token: t2, end: e2 } => if t2 is RParen {
                    Ok(
                        (
                            match ex {
                                ExprModel::Prop(p) => PEModel::P(*p),
                                other => PEModel::E(other),
                            },
                            j + 1,
                        ),
                    )
                } else {
                    Err(tok_err(s2, t2, e2, exp_rparen_s()))
                },
            }
        },
    }
}

/// Parses one atom: `⊤`, a name, or a parenthesized expression.
#[verifier::opaque]
pub open spec fn spec_parse_e_atom(items: Seq<LexItem>, eof: int, i: int) -> Result<
    (PEModel, int),
    ErrorModel,
>
    decreases items.len() - i, 1int,
    when 0 <= i <= items.len()
{
    if i >= items.len() {
        Err(eof_err(eof, exp_atom_s()))
    } else {
        match items[i] {
            LexItem::Bad { start, end } => Err(bad_err(start, end)),
            LexItem::Tok { start, token, end } => match token {
                TokenModel::Top => Ok((PEModel::P(PropModel::True), i + 1)),
                TokenModel::Name(s) => Ok((PEModel::P(PropModel::Var(s)), i + 1)),
                TokenModel::LParen => spec_parse_paren(items, eof, i),
                _ => Err(tok_err(start, token, end, exp_atom_s())),
            },
        }
    }
}

/// Extends `acc` with further application operands, left-associatively.
#[verifier::opaque]
pub open spec fn spec_parse_e_app_tail(
    items: Seq<LexItem>,
    eof: int,
    acc: PEModel,
    i: int,
) -> Result<(PEModel, int), ErrorModel>
    decreases items.len() - i, 2int,
    when 0 <= i <= items.len()
{
    if i >= items.len() {
        Ok((acc, i))
    } else {
        match items[i] {
            LexItem::Bad { start, end } => Err(bad_err(start, end)),
            LexItem::Tok { start, token, end } => if is_atom_start(token) {
                match spec_parse_e_atom(items, eof, i) {
                    Err(e) => Err(e),
                    Ok((rhs, j)) => spec_parse_e_app_tail(
                        items,
                        eof,
                        PEModel::E(
                            ExprModel::App(
                                Box::new(pe_to_expr(acc)),
                                Box::new(pe_to_expr(rhs)),
                            ),
                        ),
                        step_to(i, j, items.len() as int),
                    ),
                }
            } else {
                Ok((acc, i))
            },
        }
    }
}

/// Parses an application: one atom followed by any further operands.
#[verifier::opaque]
pub open spec fn spec_parse_e_app(items: Seq<LexItem>, eof: int, i: int) -> Result<
    (PEModel, int),
    ErrorModel,
>
    decreases items.len() - i, 3int,
    when 0 <= i <= items.len()
{
    match spec_parse_e_atom(items, eof, i) {
        Err(e) => Err(e),
        Ok((first, j)) => spec_parse_e_app_tail(items, eof, first, step_to(i, j, items.len() as int)),
    }
}

/// Parses a negation chain or an application.
#[verifier::opaque]
pub open spec fn spec_parse_e_un(items: Seq<LexItem>, eof: int, i: int) -> Result<
    (PEModel, int),
    ErrorModel,
>
    decreases items.len() - i, 4int,
    when 0 <= i <= items.len()
{
    if i >= items.len() {
        Err(eof_err(eof, exp_atom_s()))
    } else {
        match items[i] {
            LexItem::Bad { start, end } => Err(bad_err(start, end)),
            LexItem::Tok { start, token, end } => if token is Neg {
                match spec_parse_e_un(items, eof, i + 1) {
                    Err(e) => Err(e),
                    Ok((pe, j)) => match pe_to_prop(pe) {
                        Option::Some(p) => Ok((PEModel::P(PropModel::Neg(Box::new(p))), j)),
                        Option::None => Err(tok_err(start, token, end, exp_prop_s())),
                    },
                }
            } else {
                spec_parse_e_app(items, eof, i)
            },
        }
    }
}

/// Extends `acc` with further `∧` operands, left-associatively.
#[verifier::opaque]
pub open spec fn spec_parse_e_and_tail(
    items: Seq<LexItem>,
    eof: int,
    acc: PEModel,
    i: int,
) -> Result<(PEModel, int), ErrorModel>
    decreases items.len() - i, 5int,
    when 0 <= i <= items.len()
{
    if i >= items.len() {
        Ok((acc, i))
    } else {
        match items[i] {
            LexItem::Bad { start, end } => Err(bad_err(start, end)),
            LexItem::Tok { start, token, end } => if token is Conj {
                match pe_to_prop(acc) {
                    Option::None => Err(tok_err(start, token, end, exp_prop_s())),
                    Option::Some(l) => match spec_parse_e_un(items, eof, i + 1) {
                        Err(e) => Err(e),
                        Ok((rpe, j)) => match pe_to_prop(rpe) {
                            Option::None => Err(tok_err(start, token, end, exp_prop_s())),
                            Option::Some(r) => spec_parse_e_and_tail(
                                items,
                                eof,
                                PEModel::P(PropModel::And(Box::new(l), Box::new(r))),
                                step_to(i, j, items.len() as int),
                            ),
                        },
                    },
                }
            } else {
                Ok((acc, i))
            },
        }
    }
}

/// Parses a conjunction chain.
#[verifier::opaque]
pub open spec fn spec_parse_e_and(items: Seq<LexItem>, eof: int, i: int) -> Result<
    (PEModel, int),
    ErrorModel,
>
    decreases items.len() - i, 6int,
    when 0 <= i <= items.len()
{
    match spec_parse_e_un(items, eof, i) {
        Err(e) => Err(e),
        Ok((first, j)) => spec_parse_e_and_tail(
            items,
            eof,
            first,
            step_to(i, j, items.len() as int),
        ),
    }
}

/// Extends `acc` with further `∨` operands, left-associatively.
#[verifier::opaque]
pub open spec fn spec_parse_e_or_tail(
    items: Seq<LexItem>,
    eof: int,
    acc: PEModel,
    i: int,
) -> Result<(PEModel, int), ErrorModel>
    decreases items.len() - i, 7int,
    when 0 <= i <= items.len()
{
    if i >= items.len() {
        Ok((acc, i))
    } else {
        match items[i] {
            LexItem::Bad { start, end } => Err(bad_err(start, end)),
            LexItem::Tok { start, token, end } => if token is Disj {
                match pe_to_prop(acc) {
                    Option::None => Err(tok_err(start, token, end, exp_prop_s())),
                    Option::Some(l) => match spec_parse_e_and(items, eof, i + 1) {
                        Err(e) => Err(e),
                        Ok((rpe, j)) => match pe_to_prop(rpe) {
                            Option::None => Err(tok_err(start, token, end, exp_prop_s())),
                            Option::Some(r) => spec_parse_e_or_tail(
                                items,
                                eof,
                                PEModel::P(PropModel::Or(Box::new(l), Box::new(r))),
                                step_to(i, j, items.len() as int),
                            ),
                        },
                    },
                }
            } else {
                Ok((acc, i))
            },
        }
    }
}

/// Parses a disjunction chain.
#[verifier::opaque]
pub open spec fn spec_parse_e_or(items: Seq<LexItem>, eof: int, i: int) -> Result<
    (PEModel, int),
    ErrorModel,
>
    decreases items.len() - i, 8int,
    when 0 <= i <= items.len()
{
    match spec_parse_e_and(items, eof, i) {
        Err(e) => Err(e),
        Ok((first, j)) => spec_parse_e_or_tail(
            items,
            eof,
            first,
            step_to(i, j, items.len() as int),
        ),
    }
}

/// Parses an implication, right-associatively.
#[verifier::opaque]
pub open spec fn spec_parse_e_imp(items: Seq<LexItem>, eof: int, i: int) -> Result<
    (PEModel, int),
    ErrorModel,
>
    decreases items.len() - i, 9int,
    when 0 <= i <= items.len()
{
    if i >= items.len() {
        Err(eof_err(eof, exp_atom_s()))
    } else {
        match spec_parse_e_or(items, eof, i) {
        Err(e) => Err(e),
        Ok((lpe, j)) => if j >= items.len() {
            Ok((lpe, j))
        } else {
            match items[j] {
                LexItem::Bad { start, end } => Err(bad_err(start, end)),
                LexItem::Tok { start, token, end } => if token is Arrow {
                    match pe_to_prop(lpe) {
                        Option::None => Err(tok_err(start, token, end, exp_prop_s())),
                        Option::Some(l) => match spec_parse_e_imp(
                            items,
                            eof,
                            step_to(i, j + 1, items.len() as int),
                        ) {
                            Err(e) => Err(e),
                            Ok((rpe, k)) => match pe_to_prop(rpe) {
                                Option::None => Err(tok_err(start, token, end, exp_prop_s())),
                                Option::Some(r) => Ok(
                                    (PEModel::P(PropModel::Imp(Box::new(l), Box::new(r))), k),
                                ),
                            },
                        },
                    }
                    } else {
                        Ok((lpe, j))
                    },
                }
            },
        }
    }
}

/// Extends `acc` with further `↔` operands, left-associatively.
#[verifier::opaque]
pub open spec fn spec_parse_e_iff_tail(
    items: Seq<LexItem>,
    eof: int,
    acc: PEModel,
    i: int,
) -> Result<(PEModel, int), ErrorModel>
    decreases items.len() - i, 10int,
    when 0 <= i <= items.len()
{
    if i >= items.len() {
        Ok((acc, i))
    } else {
        match items[i] {
            LexItem::Bad { start, end } => Err(bad_err(start, end)),
            LexItem::Tok { start, token, end } => if token is Iff {
                match pe_to_prop(acc) {
                    Option::None => Err(tok_err(start, token, end, exp_prop_s())),
                    Option::Some(l) => match spec_parse_e_imp(items, eof, i + 1) {
                        Err(e) => Err(e),
                        Ok((rpe, j)) => match pe_to_prop(rpe) {
                            Option::None => Err(tok_err(start, token, end, exp_prop_s())),
                            Option::Some(r) => spec_parse_e_iff_tail(
                                items,
                                eof,
                                PEModel::P(PropModel::Iff(Box::new(l), Box::new(r))),
                                step_to(i, j, items.len() as int),
                            ),
                        },
                    },
                }
            } else {
                Ok((acc, i))
            },
        }
    }
}

/// Parses a biconditional chain: the loosest proposition level.
#[verifier::opaque]
pub open spec fn spec_parse_e_iff(items: Seq<LexItem>, eof: int, i: int) -> Result<
    (PEModel, int),
    ErrorModel,
>
    decreases items.len() - i, 11int,
    when 0 <= i <= items.len()
{
    match spec_parse_e_imp(items, eof, i) {
        Err(e) => Err(e),
        Ok((first, j)) => spec_parse_e_iff_tail(
            items,
            eof,
            first,
            step_to(i, j, items.len() as int),
        ),
    }
}

/// Parses a type annotation: a proposition, read as a type.
#[verifier::opaque]
pub open spec fn spec_parse_typ(items: Seq<LexItem>, eof: int, i: int) -> Result<
    (TypModel, int),
    ErrorModel,
>
    decreases items.len() - i, 12int,
    when 0 <= i <= items.len()
{
    match spec_parse_e_iff(items, eof, i) {
        Err(e) => Err(e),
        Ok((pe, j)) => match pe_to_prop(pe) {
            Option::Some(p) => Ok((TypModel::Typ(p), j)),
            Option::None => if i < items.len() {
                match items[i] {
                    LexItem::Bad { start, end } => Err(bad_err(start, end)),
                    LexItem::Tok { start, token, end } => Err(
                        tok_err(start, token, end, exp_prop_s()),
                    ),
                }
            } else {
                Err(eof_err(eof, exp_prop_s()))
            },
        },
    }
}

/// Parses the rest of a typed lambda abstraction whose `ⲗ` sits at `i`:
/// the ascribed type after the colon, the binder dot, and the body.
#[verifier::opaque]
pub open spec fn spec_parse_lambda_typed(
    items: Seq<LexItem>,
    eof: int,
    name: Seq<char>,
    i: int,
) -> Result<(ExprModel, int), ErrorModel>
    decreases items.len() - i, 11int,
    when 0 <= i && i + 3 <= items.len()
{
    match spec_parse_typ(items, eof, i + 3) {
        Err(e) => Err(e),
        Ok((ty, j)) => if j >= items.len() {
            Err(eof_err(eof, exp_dot_s()))
        } else {
            match items[j] {
                LexItem::Bad { start, end } => Err(bad_err(start, end)),
                LexItem::Tok { start: s3, token: t3, end: e3 } => if t3 is Dot {
                    match spec_parse_expr(items, eof, step_to(i, j + 1, items.len() as int)) {
                        Err(e) => Err(e),
                        Ok((body, k)) => Ok(
                            (
                                ExprModel::Lambda(
                                    Box::new(BindingModel::Var(name, Option::Some(ty))),
                                    Box::new(body),
                                    Option::None,
                                ),
                                k,
                            ),
                        ),
                    }
                } else {
                    Err(tok_err(s3, t3, e3, exp_dot_s()))
                },
            }
        },
    }
}

/// Parses a lambda abstraction whose `ⲗ` sits at `i`: a binder name, an
/// optional `:` type ascription, the binder dot, and the body.
#[verifier::opaque]
pub open spec fn spec_parse_lambda(items: Seq<LexItem>, eof: int, i: int) -> Result<
    (ExprModel, int),
    ErrorModel,
>
    decreases items.len() - i, 12int,
    when 0 <= i < items.len()
{
    if i + 1 >= items.len() {
        Err(eof_err(eof, exp_name_s()))
    } else {
        match items[i + 1] {
            LexItem::Bad { start, end } => Err(bad_err(start, end)),
            LexItem::Tok { start: s1, token: t1, end: e1 } => match t1 {
                TokenModel::Name(name) => if i + 2 >= items.len() {
                    Err(eof_err(eof, exp_dot_colon_s()))
                } else {
                    match items[i + 2] {
                        LexItem::Bad { start, end } => Err(bad_err(start, end)),
                        LexItem::Tok { start: s2, token: t2, end: e2 } => if t2 is Colon {
                            spec_parse_lambda_typed(items, eof, name, i)
                        } else if t2 is Dot {
                            match spec_parse_expr(items, eof, i + 3) {
                                Err(e) => Err(e),
                                Ok((body, k)) => Ok(
                                    (
                                        ExprModel::Lambda(
                                            Box::new(BindingModel::Var(name, Option::None)),
                                            Box::new(body),
                                            Option::None,
                                        ),
                                        k,
                                    ),
                                ),
                            }
                        } else {
                            Err(tok_err(s2, t2, e2, exp_dot_colon_s()))
                        },
                    }
                },
                _ => Err(tok_err(s1, t1, e1, exp_name_s())),
            },
        }
    }
}

/// Parses an expression: a lambda abstraction, or a proposition-level term.
#[verifier::opaque]
pub open spec fn spec_parse_expr(items: Seq<LexItem>, eof: int, i: int) -> Result<
    (ExprModel, int),
    ErrorModel,
>
    decreases items.len() - i, 13int,
    when 0 <= i <= items.len()
{
    if i >= items.len() {
        Err(eof_err(eof, exp_atom_s()))
    } else {
        match items[i] {
            LexItem::Bad { start, end } => Err(bad_err(start, end)),
            LexItem::Tok { start, token, end } => if token is Abs {
                spec_parse_lambda(items, eof, i)
            } else {
                match spec_parse_e_iff(items, eof, i) {
                    Err(e) => Err(e),
                    Ok((pe, j)) => Ok((pe_to_expr(pe), j)),
                }
            },
        }
    }
}

/// Parses the rest of a type-annotated binding whose name sits at `i`: the
/// annotation after the colon and an optional `≔` definition.
#[verifier::opaque]
pub open spec fn spec_parse_binding_typed(
    items: Seq<LexItem>,
    eof: int,
    name: Seq<char>,
    i: int,
) -> Result<(BindingModel, int), ErrorModel>
    decreases items.len() - i, 13int,
    when 0 <= i && i + 2 <= items.len()
{
    match spec_parse_typ(items, eof, i + 2) {
        Err(e) => Err(e),
        Ok((ty, j)) => if j >= items.len() {
            Ok((BindingModel::Var(name, Option::Some(ty)), j))
        } else {
            match items[j] {
                LexItem::Bad { start, end } => Err(bad_err(start, end)),
                LexItem::Tok { start: s2, token: t2, end: e2 } => if t2 is Def {
                    match spec_parse_expr(items, eof, step_to(i, j + 1, items.len() as int)) {
                        Err(e) => Err(e),
                        Ok((ex, k)) => Ok(
                            (BindingModel::Bind(name, Box::new(ex), Option::Some(ty)), k),
                        ),
                    }
                } else {
                    Ok((BindingModel::Var(name, Option::Some(ty)), j))
                },
            }
        },
    }
}

/// Parses one top-level binding.
#[verifier::opaque]
pub open spec fn spec_parse_binding(items: Seq<LexItem>, eof: int, i: int) -> Result<
    (BindingModel, int),
    ErrorModel,
>
    decreases items.len() - i, 14int,
    when 0 <= i <= items.len()
{
    if i >= items.len() {
        Err(eof_err(eof, exp_name_s()))
    } else {
        match items[i] {
            LexItem::Bad { start, end } => Err(bad_err(start, end)),
            LexItem::Tok { start, token, end } => match token {
                TokenModel::Name(name) => if i + 1 >= items.len() {
                    Ok((BindingModel::Var(name, Option::None), i + 1))
                } else {
                    match items[i + 1] {
                        LexItem::Bad { start, end } => Err(bad_err(start, end)),
                        LexItem::Tok { start: s1, token: t1, end: e1 } => if t1 is Colon {
                            spec_parse_binding_typed(items, eof, name, i)
                        } else if t1 is Def {
                            match spec_parse_expr(items, eof, i + 2) {
                                Err(e) => Err(e),
                                Ok((ex, k)) => Ok(
                                    (BindingModel::Bind(name, Box::new(ex), Option::None), k),
                                ),
                            }
                        } else {
                            Ok((BindingModel::Var(name, Option::None), i + 1))
                        },
                    }
                },
                _ => Err(tok_err(start, token, end, exp_name_s())),
            },
        }
    }
}

/// Parses the bindings from `i` to the end of the stream: a possibly empty
/// `;`-separated sequence with a trailing separator allowed.
#[verifier::opaque]
pub open spec fn spec_parse_program(items: Seq<LexItem>, eof: int, i: int) -> Result<
    Seq<BindingModel>,
    ErrorModel,
>
    decreases items.len() - i, 15int,
    when 0 <= i <= items.len()
{
    if i >= items.len() {
        Ok(Seq::empty())
    } else {
        match spec_parse_binding(items, eof, i) {
            Err(e) => Err(e),
            Ok((b, j)) => if j >= items.len() {
                Ok(seq![b])
            } else {
                match items[j] {
                    LexItem::Bad { start, end } => Err(bad_err(start, end)),
                    LexItem::Tok { start, token, end } => if token is Semi {
                        match spec_parse_program(items, eof, step_to(i, j + 1, items.len() as int)) {
                            Err(e) => Err(e),
                            Ok(rest) => Ok(seq![b] + rest),
                        }
                    } else {
                        Err(tok_err(start, token, end, exp_semi_s()))
                    },
                }
            },
        }
    }
}

/// What parsing a whole source text yields: the item stream of the text,
/// parsed as a program, with end-of-input reported at the text's byte
/// length.
pub open spec fn spec_parse(bytes: Seq<u8>) -> Result<Seq<BindingModel>, ErrorModel> {
    spec_parse_program(spec_items(bytes, 0), bytes.len() as int, 0)
}

/// A parsed operand, executable side.
enum PE {
    P(Prop),
    E(Expr),
}

/// The model of a parsed operand.
spec fn pe_view(pe: PE) -> PEModel {
    match pe {
        PE::P(p) => PEModel::P(crate::ast::prop_view(p)),
        PE::E(e) => PEModel::E(crate::ast::expr_view(e)),
    }
}

/// Reads an operand as an expression.
fn pe_into_expr(pe: PE) -> (e: Expr)
    ensures
        e@ == pe_to_expr(pe_view(pe)),
{
    match pe {
        PE::P(p) => Expr::Prop(Box::new(p)),
        PE::E(e) => e,
    }
}

/// Reads an operand as a proposition, if it is one.
fn pe_into_prop(pe: PE) -> (r: Option<Prop>)
    ensures
        match r {
            Option::Some(p) => pe_to_prop(pe_view(pe)) == Option::Some(p@),
            Option::None => pe_to_prop(pe_view(pe)) is None,
        },
{
    match pe {
        PE::P(p) => Option::Some(p),
        PE::E(_) => Option::None,
    }
}

/// One expected-token description.
fn exp1(a: &str) -> (v: Vec<String>)
    ensures
        v.deep_view() == seq![a@],
{
    let mut v: Vec<String> = Vec::new();
    v.push(String::from_str(a));
    proof {
        assert(v.deep_view() =~= seq![a@]);
    }
    v
}

/// Two expected-token descriptions.
fn exp2(a: &str, b: &str) -> (v: Vec<String>)
    ensures
        v.deep_view() == seq![a@, b@],
{
    let mut v: Vec<String> = Vec::new();
    v.push(String::from_str(a));
    v.push(String::from_str(b));
    proof {
        assert(v.deep_view() =~= seq![a@, b@]);
    }
    v
}

/// Five expected-token descriptions.
fn exp5(a: &str, b: &str, c: &str, d: &str, e: &str) -> (v: Vec<String>)
    ensures
        v.deep_view() == seq![a@, b@, c@, d@, e@],
{
    let mut v: Vec<String> = Vec::new();
    v.push(String::from_str(a));
    v.push(String::from_str(b));
    v.push(String::from_str(c));
    v.push(String::from_str(d));
    v.push(String::from_str(e));
    proof {
        assert(v.deep_view() =~= seq![a@, b@, c@, d@, e@]);
    }
    v
}

/// The atom expected-set.
fn exp_atom_exec() -> (v: Vec<String>)
    ensures
        v.deep_view() == exp_atom_s(),
{
    exp5("(", "a name", "¬", "⊤", "ⲗ")
}

/// Parses a parenthesized expression; mirrors `spec_parse_paren`.
#[verifier::rlimit(100)]
#[verifier::spinoff_prover]
fn parse_paren<'a>(
    toks: &Vec<Result<(usize, Token<'a>, usize), LexicalError>>,
    eof: usize,
    i: usize,
) -> (r: Result<(PE, usize), Error<'a>>)
    requires
        i < toks@.len(),
    ensures
        match r {
            Ok(pj) => spec_parse_paren(items_view(toks@), eof as int, i as int) == Ok::<
                (PEModel, int),
                ErrorModel,
            >((pe_view(pj.0), pj.1 as int)) && i < pj.1 <= toks@.len(),
            Err(e) => spec_parse_paren(items_view(toks@), eof as int, i as int) == Err::<
                (PEModel, int),
                ErrorModel,
            >(e@),
        },
    decreases toks@.len() - i, 0int,
{
    reveal_with_fuel(spec_parse_paren, 1);
    reveal_with_fuel(spec_parse_expr, 1);
    let ghost items = items_view(toks@);
    proof {
        assert(items.len() == toks@.len());
    }
    let n = toks.len();
    match parse_expr(toks, eof, i + 1) {
        Err(er) => Err(er),
        Ok((ex, j)) => {
            if j >= n {
                return Err(Error::UnrecognizedEOF { location: eof, expected: exp1(")") });
            }
            proof {
                assert(items[j as int] == item_view(toks@[j as int]));
            }
            match toks[j] {
                Err(le) => Err(Error::User { error: le }),
                Ok((s2, t2, e2)) => match t2 {
                    Token::RParen => {
                        let pe = match ex {
                            Expr::Prop(p) => PE::P(*p),
                            other => PE::E(other),
                        };
                        Ok((pe, j + 1))
                    },
                    _ => Err(
                        Error::UnrecognizedToken { token: (s2, t2, e2), expected: exp1(")") },
                    ),
                },
            }
        },
    }
}

/// Parses one atom; mirrors `spec_parse_e_atom`.
fn parse_e_atom<'a>(
    toks: &Vec<Result<(usize, Token<'a>, usize), LexicalError>>,
    eof: usize,
    i: usize,
) -> (r: Result<(PE, usize), Error<'a>>)
    requires
        i <= toks@.len(),
    ensures
        match r {
            Ok(pj) => spec_parse_e_atom(items_view(toks@), eof as int, i as int) == Ok::<
                (PEModel, int),
                ErrorModel,
            >((pe_view(pj.0), pj.1 as int)) && i < pj.1 <= toks@.len(),
            Err(e) => spec_parse_e_atom(items_view(toks@), eof as int, i as int) == Err::<
                (PEModel, int),
                ErrorModel,
            >(e@),
        },
    decreases toks@.len() - i, 1int,
{
    reveal_with_fuel(spec_parse_e_atom, 1);
    reveal_with_fuel(spec_parse_paren, 1);
    let ghost items = items_view(toks@);
    proof {
        assert(items.len() == toks@.len());
    }
    let n = toks.len();
    if i >= n {
        return Err(Error::UnrecognizedEOF { location: eof, expected: exp_atom_exec() });
    }
    proof {
        assert(items[i as int] == item_view(toks@[i as int]));
    }
    match toks[i] {
        Err(le) => Err(Error::User { error: le }),
        Ok((s, t, e)) => match t {
            Token::Top => Ok((PE::P(Prop::True), i + 1)),
            Token::Name(name) => Ok((PE::P(Prop::Var(name.to_owned())), i + 1)),
            Token::LParen => parse_paren(toks, eof, i),
            _ => Err(Error::UnrecognizedToken { token: (s, t, e), expected: exp_atom_exec() }),
        },
    }
}

/// Extends an application; mirrors `spec_parse_e_app_tail`.
fn parse_e_app_tail<'a>(
    toks: &Vec<Result<(usize, Token<'a>, usize), LexicalError>>,
    eof: usize,
    acc: PE,
    i: usize,
) -> (r: Result<(PE, usize), Error<'a>>)
    requires
        i <= toks@.len(),
    ensures
        match r {
            Ok(pj) => spec_parse_e_app_tail(items_view(toks@), eof as int, pe_view(acc), i as int)
                == Ok::<(PEModel, int), ErrorModel>((pe_view(pj.0), pj.1 as int)) && i <= pj.1
                <= toks@.len(),
            Err(e) => spec_parse_e_app_tail(items_view(toks@), eof as int, pe_view(acc), i as int)
                == Err::<(PEModel, int), ErrorModel>(e@),
        },
    decreases toks@.len() - i, 2int,
{
    reveal_with_fuel(spec_parse_e_app_tail, 1);
    reveal_with_fuel(spec_parse_e_atom, 1);
    let ghost items = items_view(toks@);
    proof {
        assert(items.len() == toks@.len());
    }
    let n = toks.len();
    if i >= n {
        return Ok((acc, i));
    }
    proof {
        assert(items[i as int] == item_view(toks@[i as int]));
    }
    let cont = match toks[i] {
        Err(_) => false,
        Ok((_, t, _)) => match t {
            Token::LParen => true,
            Token::Top => true,
            Token::Name(_) => true,
            _ => false,
        },
    };
    if !cont {
        match toks[i] {
            Err(le) => {
                return Err(Error::User { error: le });
            },
            Ok(_) => {
                return Ok((acc, i));
            },
        }
    }
    match parse_e_atom(toks, eof, i) {
        Err(e) => Err(e),
        Ok((rhs, j)) => {
            proof {
                assert(step_to(i as int, j as int, items.len() as int) == j as int);
            }
            let app = PE::E(
                Expr::App(Box::new(pe_into_expr(acc)), Box::new(pe_into_expr(rhs))),
            );
            parse_e_app_tail(toks, eof, app, j)
        },
    }
}

/// Parses an application; mirrors `spec_parse_e_app`.
fn parse_e_app<'a>(
    toks: &Vec<Result<(usize, Token<'a>, usize), LexicalError>>,
    eof: usize,
    i: usize,
) -> (r: Result<(PE, usize), Error<'a>>)
    requires
        i <= toks@.len(),
    ensures
        match r {
            Ok(pj) => spec_parse_e_app(items_view(toks@), eof as int, i as int) == Ok::<
                (PEModel, int),
                ErrorModel,
            >((pe_view(pj.0), pj.1 as int)) && i < pj.1 <= toks@.len(),
            Err(e) => spec_parse_e_app(items_view(toks@), eof as int, i as int) == Err::<
                (PEModel, int),
                ErrorModel,
            >(e@),
        },
    decreases toks@.len() - i, 3int,
{
    reveal_with_fuel(spec_parse_e_app, 1);
    reveal_with_fuel(spec_parse_e_atom, 1);
    reveal_with_fuel(spec_parse_e_app_tail, 1);
    match parse_e_atom(toks, eof, i) {
        Err(e) => Err(e),
        Ok((first, j)) => {
            proof {
                assert(step_to(i as int, j as int, items_view(toks@).len() as int) == j as int);
            }
            parse_e_app_tail(toks, eof, first, j)
        },
    }
}

/// Parses a negation chain; mirrors `spec_parse_e_un`.
fn parse_e_un<'a>(
    toks: &Vec<Result<(usize, Token<'a>, usize), LexicalError>>,
    eof: usize,
    i: usize,
) -> (r: Result<(PE, usize), Error<'a>>)
    requires
        i <= toks@.len(),
    ensures
        match r {
            Ok(pj) => spec_parse_e_un(items_view(toks@), eof as int, i as int) == Ok::<
                (PEModel, int),
                ErrorModel,
            >((pe_view(pj.0), pj.1 as int)) && i < pj.1 <= toks@.len(),
            Err(e) => spec_parse_e_un(items_view(toks@), eof as int, i as int) == Err::<
                (PEModel, int),
                ErrorModel,
            >(e@),
        },
    decreases toks@.len() - i, 4int,
{
    reveal_with_fuel(spec_parse_e_un, 1);
    reveal_with_fuel(spec_parse_e_app, 1);
    let ghost items = items_view(toks@);
    proof {
        assert(items.len() == toks@.len());
    }
    let n = toks.len();
    if i >= n {
        return Err(Error::UnrecognizedEOF { location: eof, expected: exp_atom_exec() });
    }
    proof {
        assert(items[i as int] == item_view(toks@[i as int]));
    }
    match toks[i] {
        Err(le) => Err(Error::User { error: le }),
        Ok((s, t, e)) => match t {
            Token::Neg => match parse_e_un(toks, eof, i + 1) {
                Err(er) => Err(er),
                Ok((pe, j)) => match pe_into_prop(pe) {
                    Option::Some(p) => Ok((PE::P(Prop::Neg(Box::new(p))), j)),
                    Option::None => Err(
                        Error::UnrecognizedToken {
                            token: (s, t, e),
                            expected: exp1("a proposition"),
                        },
                    ),
                },
            },
            _ => parse_e_app(toks, eof, i),
        },
    }
}

/// Extends a conjunction; mirrors `spec_parse_e_and_tail`.
fn parse_e_and_tail<'a>(
    toks: &Vec<Result<(usize, Token<'a>, usize), LexicalError>>,
    eof: usize,
    acc: PE,
    i: usize,
) -> (r: Result<(PE, usize), Error<'a>>)
    requires
        i <= toks@.len(),
    ensures
        match r {
            Ok(pj) => spec_parse_e_and_tail(items_view(toks@), eof as int, pe_view(acc), i as int)
                == Ok::<(PEModel, int), ErrorModel>((pe_view(pj.0), pj.1 as int)) && i <= pj.1
                <= toks@.len(),
            Err(e) => spec_parse_e_and_tail(items_view(toks@), eof as int, pe_view(acc), i as int)
                == Err::<(PEModel, int), ErrorModel>(e@),
        },
    decreases toks@.len() - i, 5int,
{
    reveal_with_fuel(spec_parse_e_and_tail, 1);
    reveal_with_fuel(spec_parse_e_un, 1);
    let ghost items = items_view(toks@);
    proof {
        assert(items.len() == toks@.len());
    }
    let n = toks.len();
    if i >= n {
        return Ok((acc, i));
    }
    proof {
        assert(items[i as int] == item_view(toks@[i as int]));
    }
    match toks[i] {
        Err(le) => Err(Error::User { error: le }),
        Ok((s, t, e)) => match t {
            Token::Conj => match pe_into_prop(acc) {
                Option::None => Err(
                    Error::UnrecognizedToken { token: (s, t, e), expected: exp1("a proposition") },
                ),
                Option::Some(l) => match parse_e_un(toks, eof, i + 1) {
                    Err(er) => Err(er),
                    Ok((rpe, j)) => match pe_into_prop(rpe) {
                        Option::None => Err(
                            Error::UnrecognizedToken {
                                token: (s, t, e),
                                expected: exp1("a proposition"),
                            },
                        ),
                        Option::Some(rp) => {
                            proof {
                                assert(step_to(i as int, j as int, items.len() as int)
                                    == j as int);
                            }
                            parse_e_and_tail(
                                toks,
                                eof,
                                PE::P(Prop::And(Box::new(l), Box::new(rp))),
                                j,
                            )
                        },
                    },
                },
            },
            _ => Ok((acc, i)),
        },
    }
}

/// Parses a conjunction chain; mirrors `spec_parse_e_and`.
fn parse_e_and<'a>(
    toks: &Vec<Result<(usize, Token<'a>, usize), LexicalError>>,
    eof: usize,
    i: usize,
) -> (r: Result<(PE, usize), Error<'a>>)
    requires
        i <= toks@.len(),
    ensures
        match r {
            Ok(pj) => spec_parse_e_and(items_view(toks@), eof as int, i as int) == Ok::<
                (PEModel, int),
                ErrorModel,
            >((pe_view(pj.0), pj.1 as int)) && i < pj.1 <= toks@.len(),
            Err(e) => spec_parse_e_and(items_view(toks@), eof as int, i as int) == Err::<
                (PEModel, int),
                ErrorModel,
            >(e@),
        },
    decreases toks@.len() - i, 6int,
{
    reveal_with_fuel(spec_parse_e_and, 1);
    reveal_with_fuel(spec_parse_e_un, 1);
    reveal_with_fuel(spec_parse_e_and_tail, 1);
    match parse_e_un(toks, eof, i) {
        Err(e) => Err(e),
        Ok((first, j)) => {
            proof {
                assert(step_to(i as int, j as int, items_view(toks@).len() as int) == j as int);
            }
            parse_e_and_tail(toks, eof, first, j)
        },
    }
}

/// Extends a disjunction; mirrors `spec_parse_e_or_tail`.
fn parse_e_or_tail<'a>(
    toks: &Vec<Result<(usize, Token<'a>, usize), LexicalError>>,
    eof: usize,
    acc: PE,
    i: usize,
) -> (r: Result<(PE, usize), Error<'a>>)
    requires
        i <= toks@.len(),
    ensures
        match r {
            Ok(pj) => spec_parse_e_or_tail(items_view(toks@), eof as int, pe_view(acc), i as int)
                == Ok::<(PEModel, int), ErrorModel>((pe_view(pj.0), pj.1 as int)) && i <= pj.1
                <= toks@.len(),
            Err(e) => spec_parse_e_or_tail(items_view(toks@), eof as int, pe_view(acc), i as int)
                == Err::<(PEModel, int), ErrorModel>(e@),
        },
    decreases toks@.len() - i, 7int,
{
    reveal_with_fuel(spec_parse_e_or_tail, 1);
    reveal_with_fuel(spec_parse_e_and, 1);
    let ghost items = items_view(toks@);
    proof {
        assert(items.len() == toks@.len());
    }
    let n = toks.len();
    if i >= n {
        return Ok((acc, i));
    }
    proof {
        assert(items[i as int] == item_view(toks@[i as int]));
    }
    match toks[i] {
        Err(le) => Err(Error::User { error: le }),
        Ok((s, t, e)) => match t {
            Token::Disj => match pe_into_prop(acc) {
                Option::None => Err(
                    Error::UnrecognizedToken { token: (s, t, e), expected: exp1("a proposition") },
                ),
                Option::Some(l) => match parse_e_and(toks, eof, i + 1) {
                    Err(er) => Err(er),
                    Ok((rpe, j)) => match pe_into_prop(rpe) {
                        Option::None => Err(
                            Error::UnrecognizedToken {
                                token: (s, t, e),
                                expected: exp1("a proposition"),
                            },
                        ),
                        Option::Some(rp) => {
                            proof {
                                assert(step_to(i as int, j as int, items.len() as int)
                                    == j as int);
                            }
                            parse_e_or_tail(
                                toks,
                                eof,
                                PE::P(Prop::Or(Box::new(l), Box::new(rp))),
                                j,
                            )
                        },
                    },
                },
            },
            _ => Ok((acc, i)),
        },
    }
}

/// Parses a disjunction chain; mirrors `spec_parse_e_or`.
fn parse_e_or<'a>(
    toks: &Vec<Result<(usize, Token<'a>, usize), LexicalError>>,
    eof: usize,
    i: usize,
) -> (r: Result<(PE, usize), Error<'a>>)
    requires
        i <= toks@.len(),
    ensures
        match r {
            Ok(pj) => spec_parse_e_or(items_view(toks@), eof as int, i as int) == Ok::<
                (PEModel, int),
                ErrorModel,
            >((pe_view(pj.0), pj.1 as int)) && i < pj.1 <= toks@.len(),
            Err(e) => spec_parse_e_or(items_view(toks@), eof as int, i as int) == Err::<
                (PEModel, int),
                ErrorModel,
            >(e@),
        },
    decreases toks@.len() - i, 8int,
{
    reveal_with_fuel(spec_parse_e_or, 1);
    reveal_with_fuel(spec_parse_e_and, 1);
    reveal_with_fuel(spec_parse_e_or_tail, 1);
    match parse_e_and(toks, eof, i) {
        Err(e) => Err(e),
        Ok((first, j)) => {
            proof {
                assert(step_to(i as int, j as int, items_view(toks@).len() as int) == j as int);
            }
            parse_e_or_tail(toks, eof, first, j)
        },
    }
}

/// Parses an implication; mirrors `spec_parse_e_imp`.
#[verifier::rlimit(100)]
#[verifier::spinoff_prover]
fn parse_e_imp<'a>(
    toks: &Vec<Result<(usize, Token<'a>, usize), LexicalError>>,
    eof: usize,
    i: usize,
) -> (r: Result<(PE, usize), Error<'a>>)
    requires
        i <= toks@.len(),
    ensures
        match r {
            Ok(pj) => spec_parse_e_imp(items_view(toks@), eof as int, i as int) == Ok::<
                (PEModel, int),
                ErrorModel,
            >((pe_view(pj.0), pj.1 as int)) && i < pj.1 <= toks@.len(),
            Err(e) => spec_parse_e_imp(items_view(toks@), eof as int, i as int) == Err::<
                (PEModel, int),
                ErrorModel,
            >(e@),
        },
    decreases toks@.len() - i, 9int,
{
    reveal_with_fuel(spec_parse_e_imp, 1);
    reveal_with_fuel(spec_parse_e_or, 1);
    let ghost items = items_view(toks@);
    proof {
        assert(items.len() == toks@.len());
    }
    let n = toks.len();
    if i >= n {
        return Err(Error::UnrecognizedEOF { location: eof, expected: exp_atom_exec() });
    }
    match parse_e_or(toks, eof, i) {
        Err(e) => Err(e),
        Ok((lpe, j)) => {
            if j >= n {
                return Ok((lpe, j));
            }
            proof {
                assert(items[j as int] == item_view(toks@[j as int]));
            }
            match toks[j] {
                Err(le) => Err(Error::User { error: le }),
                Ok((s, t, e)) => match t {
                    Token::Arrow => match pe_into_prop(lpe) {
                        Option::None => Err(
                            Error::UnrecognizedToken {
                                token: (s, t, e),
                                expected: exp1("a proposition"),
                            },
                        ),
                        Option::Some(l) => {
                            proof {
                                assert(step_to(i as int, j + 1, items.len() as int) == j + 1);
                            }
                            match parse_e_imp(toks, eof, j + 1) {
                                Err(er) => Err(er),
                                Ok((rpe, k)) => match pe_into_prop(rpe) {
                                    Option::None => Err(
                                        Error::UnrecognizedToken {
                                            token: (s, t, e),
                                            expected: exp1("a proposition"),
                                        },
                                    ),
                                    Option::Some(rp) => Ok(
                                        (PE::P(Prop::Imp(Box::new(l), Box::new(rp))), k),
                                    ),
                                },
                            }
                        },
                    },
                    _ => Ok((lpe, j)),
                },
            }
        },
    }
}

/// Extends a biconditional; mirrors `spec_parse_e_iff_tail`.
fn parse_e_iff_tail<'a>(
    toks: &Vec<Result<(usize, Token<'a>, usize), LexicalError>>,
    eof: usize,
    acc: PE,
    i: usize,
) -> (r: Result<(PE, usize), Error<'a>>)
    requires
        i <= toks@.len(),
    ensures
        match r {
            Ok(pj) => spec_parse_e_iff_tail(items_view(toks@), eof as int, pe_view(acc), i as int)
                == Ok::<(PEModel, int), ErrorModel>((pe_view(pj.0), pj.1 as int)) && i <= pj.1
                <= toks@.len(),
            Err(e) => spec_parse_e_iff_tail(items_view(toks@), eof as int, pe_view(acc), i as int)
                == Err::<(PEModel, int), ErrorModel>(e@),
        },
    decreases toks@.len() - i, 10int,
{
    reveal_with_fuel(spec_parse_e_iff_tail, 1);
    reveal_with_fuel(spec_parse_e_imp, 1);
    let ghost items = items_view(toks@);
    proof {
        assert(items.len() == toks@.len());
    }
    let n = toks.len();
    if i >= n {
        return Ok((acc, i));
    }
    proof {
        assert(items[i as int] == item_view(toks@[i as int]));
    }
    match toks[i] {
        Err(le) => Err(Error::User { error: le }),
        Ok((s, t, e)) => match t {
            Token::Iff => match pe_into_prop(acc) {
                Option::None => Err(
                    Error::UnrecognizedToken { token: (s, t, e), expected: exp1("a proposition") },
                ),
                Option::Some(l) => match parse_e_imp(toks, eof, i + 1) {
                    Err(er) => Err(er),
                    Ok((rpe, j)) => match pe_into_prop(rpe) {
                        Option::None => Err(
                            Error::UnrecognizedToken {
                                token: (s, t, e),
                                expected: exp1("a proposition"),
                            },
                        ),
                        Option::Some(rp) => {
                            proof {
                                assert(step_to(i as int, j as int, items.len() as int)
                                    == j as int);
                            }
                            parse_e_iff_tail(
                                toks,
                                eof,
                                PE::P(Prop::Iff(Box::new(l), Box::new(rp))),
                                j,
                            )
                        },
                    },
                },
            },
            _ => Ok((acc, i)),
        },
    }
}

/// Parses a biconditional chain; mirrors `spec_parse_e_iff`.
fn parse_e_iff<'a>(
    toks: &Vec<Result<(usize, Token<'a>, usize), LexicalError>>,
    eof: usize,
    i: usize,
) -> (r: Result<(PE, usize), Error<'a>>)
    requires
        i <= toks@.len(),
    ensures
        match r {
            Ok(pj) => spec_parse_e_iff(items_view(toks@), eof as int, i as int) == Ok::<
                (PEModel, int),
                ErrorModel,
            >((pe_view(pj.0), pj.1 as int)) && i < pj.1 <= toks@.len(),
            Err(e) => spec_parse_e_iff(items_view(toks@), eof as int, i as int) == Err::<
                (PEModel, int),
                ErrorModel,
            >(e@),
        },
    decreases toks@.len() - i, 11int,
{
    reveal_with_fuel(spec_parse_e_iff, 1);
    reveal_with_fuel(spec_parse_e_imp, 1);
    reveal_with_fuel(spec_parse_e_iff_tail, 1);
    match parse_e_imp(toks, eof, i) {
        Err(e) => Err(e),
        Ok((first, j)) => {
            proof {
                assert(step_to(i as int, j as int, items_view(toks@).len() as int) == j as int);
            }
            parse_e_iff_tail(toks, eof, first, j)
        },
    }
}

/// Parses a type annotation; mirrors `spec_parse_typ`.
fn parse_typ<'a>(
    toks: &Vec<Result<(usize, Token<'a>, usize), LexicalError>>,
    eof: usize,
    i: usize,
) -> (r: Result<(Typ, usize), Error<'a>>)
    requires
        i <= toks@.len(),
    ensures
        match r {
            Ok(tj) => spec_parse_typ(items_view(toks@), eof as int, i as int) == Ok::<
                (TypModel, int),
                ErrorModel,
            >((tj.0@, tj.1 as int)) && i < tj.1 <= toks@.len(),
            Err(e) => spec_parse_typ(items_view(toks@), eof as int, i as int) == Err::<
                (TypModel, int),
                ErrorModel,
            >(e@),
        },
    decreases toks@.len() - i, 12int,
{
    reveal_with_fuel(spec_parse_typ, 1);
    reveal_with_fuel(spec_parse_e_iff, 1);
    let ghost items = items_view(toks@);
    proof {
        assert(items.len() == toks@.len());
    }
    let n = toks.len();
    match parse_e_iff(toks, eof, i) {
        Err(e) => Err(e),
        Ok((pe, j)) => match pe_into_prop(pe) {
            Option::Some(p) => Ok((Typ::Typ(p), j)),
            Option::None => {
                if i < n {
                    proof {
                        assert(items[i as int] == item_view(toks@[i as int]));
                    }
                    match toks[i] {
                        Err(le) => Err(Error::User { error: le }),
                        Ok((s, t, e)) => Err(
                            Error::UnrecognizedToken {
                                token: (s, t, e),
                                expected: exp1("a proposition"),
                            },
                        ),
                    }
                } else {
                    Err(Error::UnrecognizedEOF { location: eof, expected: exp1("a proposition") })
                }
            },
        },
    }
}

/// Parses the rest of a typed lambda; mirrors `spec_parse_lambda_typed`.
#[verifier::rlimit(100)]
#[verifier::spinoff_prover]
fn parse_lambda_typed<'a>(
    toks: &Vec<Result<(usize, Token<'a>, usize), LexicalError>>,
    eof: usize,
    name: &'a str,
    i: usize,
) -> (r: Result<(Expr, usize), Error<'a>>)
    requires
        i + 3 <= toks@.len(),
    ensures
        match r {
            Ok(ej) => spec_parse_lambda_typed(items_view(toks@), eof as int, name@, i as int)
                == Ok::<(ExprModel, int), ErrorModel>((ej.0@, ej.1 as int)) && i < ej.1
                <= toks@.len(),
            Err(e) => spec_parse_lambda_typed(items_view(toks@), eof as int, name@, i as int)
                == Err::<(ExprModel, int), ErrorModel>(e@),
        },
    decreases toks@.len() - i, 11int,
{
    reveal_with_fuel(spec_parse_lambda_typed, 1);
    reveal_with_fuel(spec_parse_typ, 1);
    reveal_with_fuel(spec_parse_expr, 1);
    let ghost items = items_view(toks@);
    proof {
        assert(items.len() == toks@.len());
    }
    let n = toks.len();
    match parse_typ(toks, eof, i + 3) {
        Err(er) => Err(er),
        Ok((ty, j)) => {
            if j >= n {
                return Err(Error::UnrecognizedEOF { location: eof, expected: exp1(".") });
            }
            proof {
                assert(items[j as int] == item_view(toks@[j as int]));
            }
            match toks[j] {
                Err(le) => Err(Error::User { error: le }),
                Ok((s3, t3, e3)) => match t3 {
                    Token::Dot => {
                        proof {
                            assert(step_to(i as int, j + 1, items.len() as int) == j + 1);
                        }
                        match parse_expr(toks, eof, j + 1) {
                            Err(er) => Err(er),
                            Ok((body, k)) => {
                                let ghost bodym = body@;
                                let ghost tym = ty@;
                                let lam = Expr::Lambda(
                                    Box::new(Binding::Var(name.to_owned(), Option::Some(ty))),
                                    Box::new(body),
                                    Option::None,
                                );
                                proof {
                                    reveal_with_fuel(crate::ast::expr_view, 2);
                                    reveal_with_fuel(crate::ast::binding_view, 2);
                                    assert(lam@ == ExprModel::Lambda(
                                        Box::new(BindingModel::Var(name@, Option::Some(tym))),
                                        Box::new(bodym),
                                        Option::None,
                                    ));
                                }
                                Ok((lam, k))
                            },
                        }
                    },
                    _ => Err(
                        Error::UnrecognizedToken { token: (s3, t3, e3), expected: exp1(".") },
                    ),
                },
            }
        },
    }
}

/// Parses a lambda abstraction; mirrors `spec_parse_lambda`.
#[verifier::rlimit(100)]
#[verifier::spinoff_prover]
fn parse_lambda<'a>(
    toks: &Vec<Result<(usize, Token<'a>, usize), LexicalError>>,
    eof: usize,
    i: usize,
) -> (r: Result<(Expr, usize), Error<'a>>)
    requires
        i < toks@.len(),
    ensures
        match r {
            Ok(ej) => spec_parse_lambda(items_view(toks@), eof as int, i as int) == Ok::<
                (ExprModel, int),
                ErrorModel,
            >((ej.0@, ej.1 as int)) && i < ej.1 <= toks@.len(),
            Err(e) => spec_parse_lambda(items_view(toks@), eof as int, i as int) == Err::<
                (ExprModel, int),
                ErrorModel,
            >(e@),
        },
    decreases toks@.len() - i, 12int,
{
    reveal_with_fuel(spec_parse_lambda, 1);
    reveal_with_fuel(spec_parse_lambda_typed, 1);
    reveal_with_fuel(spec_parse_expr, 1);
    let ghost items = items_view(toks@);
    proof {
        assert(items.len() == toks@.len());
    }
    let n = toks.len();
    if i + 1 >= n {
        return Err(Error::UnrecognizedEOF { location: eof, expected: exp1("a name") });
    }
    proof {
        assert(items[i + 1] == item_view(toks@[i + 1]));
    }
    match toks[i + 1] {
        Err(le) => Err(Error::User { error: le }),
        Ok((s1, t1, e1)) => match t1 {
            Token::Name(name) => {
                if i + 2 >= n {
                    return Err(
                        Error::UnrecognizedEOF { location: eof, expected: exp2(".", ":") },
                    );
                }
                proof {
                    assert(items[i + 2] == item_view(toks@[i + 2]));
                }
                match toks[i + 2] {
                    Err(le) => Err(Error::User { error: le }),
                    Ok((s2, t2, e2)) => match t2 {
                        Token::Colon => parse_lambda_typed(toks, eof, name, i),
                        Token::Dot => match parse_expr(toks, eof, i + 3) {
                            Err(er) => Err(er),
                            Ok((body, k)) => {
                                let ghost bodym = body@;
                                let lam = Expr::Lambda(
                                    Box::new(Binding::Var(name.to_owned(), Option::None)),
                                    Box::new(body),
                                    Option::None,
                                );
                                proof {
                                    reveal_with_fuel(crate::ast::expr_view, 2);
                                    reveal_with_fuel(crate::ast::binding_view, 2);
                                    assert(lam@ == ExprModel::Lambda(
                                        Box::new(BindingModel::Var(name@, Option::None)),
                                        Box::new(bodym),
                                        Option::None,
                                    ));
                                }
                                Ok((lam, k))
                            },
                        },
                        _ => Err(
                            Error::UnrecognizedToken {
                                token: (s2, t2, e2),
                                expected: exp2(".", ":"),
                            },
                        ),
                    },
                }
            },
            _ => Err(
                Error::UnrecognizedToken { token: (s1, t1, e1), expected: exp1("a name") },
            ),
        },
    }
}

/// Parses an expression; mirrors `spec_parse_expr`.
fn parse_expr<'a>(
    toks: &Vec<Result<(usize, Token<'a>, usize), LexicalError>>,
    eof: usize,
    i: usize,
) -> (r: Result<(Expr, usize), Error<'a>>)
    requires
        i <= toks@.len(),
    ensures
        match r {
            Ok(ej) => spec_parse_expr(items_view(toks@), eof as int, i as int) == Ok::<
                (ExprModel, int),
                ErrorModel,
            >((ej.0@, ej.1 as int)) && i < ej.1 <= toks@.len(),
            Err(e) => spec_parse_expr(items_view(toks@), eof as int, i as int) == Err::<
                (ExprModel, int),
                ErrorModel,
            >(e@),
        },
    decreases toks@.len() - i, 13int,
{
    reveal_with_fuel(spec_parse_expr, 1);
    reveal_with_fuel(spec_parse_lambda, 1);
    reveal_with_fuel(spec_parse_e_iff, 1);
    let ghost items = items_view(toks@);
    proof {
        assert(items.len() == toks@.len());
    }
    let n = toks.len();
    if i >= n {
        return Err(Error::UnrecognizedEOF { location: eof, expected: exp_atom_exec() });
    }
    proof {
        assert(items[i as int] == item_view(toks@[i as int]));
    }
    match toks[i] {
        Err(le) => Err(Error::User { error: le }),
        Ok((s, t, e)) => match t {
            Token::Abs => parse_lambda(toks, eof, i),
            _ => match parse_e_iff(toks, eof, i) {
                Err(er) => Err(er),
                Ok((pe, j)) => Ok((pe_into_expr(pe), j)),
            },
        },
    }
}

/// Parses the rest of an annotated binding; mirrors
/// `spec_parse_binding_typed`.
#[verifier::rlimit(100)]
#[verifier::spinoff_prover]
fn parse_binding_typed<'a>(
    toks: &Vec<Result<(usize, Token<'a>, usize), LexicalError>>,
    eof: usize,
    name: &'a str,
    i: usize,
) -> (r: Result<(Binding, usize), Error<'a>>)
    requires
        i + 2 <= toks@.len(),
    ensures
        match r {
            Ok(bj) => spec_parse_binding_typed(items_view(toks@), eof as int, name@, i as int)
                == Ok::<(BindingModel, int), ErrorModel>((bj.0@, bj.1 as int)) && i < bj.1
                <= toks@.len(),
            Err(e) => spec_parse_binding_typed(items_view(toks@), eof as int, name@, i as int)
                == Err::<(BindingModel, int), ErrorModel>(e@),
        },
    decreases toks@.len() - i, 13int,
{
    reveal_with_fuel(spec_parse_binding_typed, 1);
    reveal_with_fuel(spec_parse_typ, 1);
    reveal_with_fuel(spec_parse_expr, 1);
    let ghost items = items_view(toks@);
    proof {
        assert(items.len() == toks@.len());
    }
    let n = toks.len();
    match parse_typ(toks, eof, i + 2) {
        Err(er) => Err(er),
        Ok((ty, j)) => {
            if j >= n {
                return Ok((Binding::Var(name.to_owned(), Option::Some(ty)), j));
            }
            proof {
                assert(items[j as int] == item_view(toks@[j as int]));
            }
            match toks[j] {
                Err(le) => Err(Error::User { error: le }),
                Ok((s2, t2, e2)) => match t2 {
                    Token::Def => {
                        proof {
                            assert(step_to(i as int, j + 1, items.len() as int) == j + 1);
                        }
                        match parse_expr(toks, eof, j + 1) {
                            Err(er) => Err(er),
                            Ok((ex, k)) => Ok(
                                (
                                    Binding::Bind(
                                        name.to_owned(),
                                        Box::new(ex),
                                        Option::Some(ty),
                                    ),
                                    k,
                                ),
                            ),
                        }
                    },
                    _ => Ok((Binding::Var(name.to_owned(), Option::Some(ty)), j)),
                },
            }
        },
    }
}

/// Parses one top-level binding; mirrors `spec_parse_binding`.
#[verifier::rlimit(100)]
#[verifier::spinoff_prover]
fn parse_binding<'a>(
    toks: &Vec<Result<(usize, Token<'a>, usize), LexicalError>>,
    eof: usize,
    i: usize,
) -> (r: Result<(Binding, usize), Error<'a>>)
    requires
        i <= toks@.len(),
    ensures
        match r {
            Ok(bj) => spec_parse_binding(items_view(toks@), eof as int, i as int) == Ok::<
                (BindingModel, int),
                ErrorModel,
            >((bj.0@, bj.1 as int)) && i < bj.1 <= toks@.len(),
            Err(e) => spec_parse_binding(items_view(toks@), eof as int, i as int) == Err::<
                (BindingModel, int),
                ErrorModel,
            >(e@),
        },
    decreases toks@.len() - i, 14int,
{
    reveal_with_fuel(spec_parse_binding, 1);
    reveal_with_fuel(spec_parse_binding_typed, 1);
    reveal_with_fuel(spec_parse_expr, 1);
    let ghost items = items_view(toks@);
    proof {
        assert(items.len() == toks@.len());
    }
    let n = toks.len();
    if i >= n {
        return Err(Error::UnrecognizedEOF { location: eof, expected: exp1("a name") });
    }
    proof {
        assert(items[i as int] == item_view(toks@[i as int]));
    }
    match toks[i] {
        Err(le) => Err(Error::User { error: le }),
        Ok((s, t, e)) => match t {
            Token::Name(name) => {
                if i + 1 >= n {
                    return Ok((Binding::Var(name.to_owned(), Option::None), i + 1));
                }
                proof {
                    assert(items[i + 1] == item_view(toks@[i + 1]));
                }
                match toks[i + 1] {
                    Err(le) => Err(Error::User { error: le }),
                    Ok((s1, t1, e1)) => match t1 {
                        Token::Colon => parse_binding_typed(toks, eof, name, i),
                        Token::Def => match parse_expr(toks, eof, i + 2) {
                            Err(er) => Err(er),
                            Ok((ex, k)) => Ok(
                                (
                                    Binding::Bind(name.to_owned(), Box::new(ex), Option::None),
                                    k,
                                ),
                            ),
                        },
                        _ => Ok((Binding::Var(name.to_owned(), Option::None), i + 1)),
                    },
                }
            },
            _ => Err(Error::UnrecognizedToken { token: (s, t, e), expected: exp1("a name") }),
        },
    }
}

/// The models of a sequence of bindings.
pub open spec fn bindings_view(v: Seq<Binding>) -> Seq<BindingModel> {
    v.map(|k: int, b: Binding| crate::ast::binding_view(b))
}

/// Parses a whole item stream as a program; mirrors `spec_parse_program`.
#[verifier::rlimit(100)]
#[verifier::spinoff_prover]
fn parse_program<'a>(
    toks: &Vec<Result<(usize, Token<'a>, usize), LexicalError>>,
    eof: usize,
) -> (r: Result<Vec<Binding>, Error<'a>>)
    ensures
        match r {
            Ok(v) => spec_parse_program(items_view(toks@), eof as int, 0) == Ok::<
                Seq<BindingModel>,
                ErrorModel,
            >(bindings_view(v@)),
            Err(e) => spec_parse_program(items_view(toks@), eof as int, 0) == Err::<
                Seq<BindingModel>,
                ErrorModel,
            >(e@),
        },
{
    reveal_with_fuel(spec_parse_program, 1);
    reveal_with_fuel(spec_parse_binding, 1);
    let ghost items = items_view(toks@);
    proof {
        assert(items.len() == toks@.len());
    }
    let n = toks.len();
    let mut out: Vec<Binding> = Vec::new();
    let mut i: usize = 0;
    loop
        invariant
            i <= toks@.len(),
            items == items_view(toks@),
            items.len() == toks@.len(),
            n == toks@.len(),
            forall|rest: Seq<BindingModel>|
                spec_parse_program(items, eof as int, i as int) == Ok::<
                    Seq<BindingModel>,
                    ErrorModel,
                >(rest) ==> spec_parse_program(items, eof as int, 0) == Ok::<
                    Seq<BindingModel>,
                    ErrorModel,
                >(bindings_view(out@) + rest),
            forall|e: ErrorModel|
                spec_parse_program(items, eof as int, i as int) == Err::<
                    Seq<BindingModel>,
                    ErrorModel,
                >(e) ==> spec_parse_program(items, eof as int, 0) == Err::<
                    Seq<BindingModel>,
                    ErrorModel,
                >(e),
        decreases toks@.len() - i,
    {
        reveal_with_fuel(spec_parse_program, 1);
        reveal_with_fuel(spec_parse_binding, 1);
        if i >= n {
            proof {
                assert(spec_parse_program(items, eof as int, i as int) == Ok::<
                    Seq<BindingModel>,
                    ErrorModel,
                >(Seq::<BindingModel>::empty()));
                assert(bindings_view(out@) + Seq::<BindingModel>::empty() =~= bindings_view(
                    out@,
                ));
            }
            return Ok(out);
        }
        let ghost i0 = i as int;
        let ghost out0 = out@;
        match parse_binding(toks, eof, i) {
            Err(e) => {
                return Err(e);
            },
            Ok((b, j)) => {
                out.push(b);
                proof {
                    assert(bindings_view(out@) =~= bindings_view(out0) + seq![b@]);
                }
                if j >= n {
                    proof {
                        assert(spec_parse_program(items, eof as int, i0) == Ok::<
                            Seq<BindingModel>,
                            ErrorModel,
                        >(seq![b@]));
                        assert(bindings_view(out0) + seq![b@] =~= bindings_view(out@)
                            + Seq::<BindingModel>::empty());
                    }
                    return Ok(out);
                }
                proof {
                    assert(items[j as int] == item_view(toks@[j as int]));
                }
                match toks[j] {
                    Err(le) => {
                        return Err(Error::User { error: le });
                    },
                    Ok((s2, t2, e2)) => match t2 {
                        Token::Semi => {
                            proof {
                                assert(step_to(i0, j + 1, items.len() as int) == j + 1);
                                assert forall|rest: Seq<BindingModel>|
                                    spec_parse_program(items, eof as int, j + 1) == Ok::<
                                        Seq<BindingModel>,
                                        ErrorModel,
                                    >(rest) implies spec_parse_program(items, eof as int, 0)
                                    == Ok::<Seq<BindingModel>, ErrorModel>(
                                    bindings_view(out@) + rest,
                                ) by {
                                    reveal_with_fuel(spec_parse_program, 1);
                                    reveal_with_fuel(spec_parse_binding, 1);
                                    assert(spec_parse_program(items, eof as int, i0) == Ok::<
                                        Seq<BindingModel>,
                                        ErrorModel,
                                    >(seq![b@] + rest));
                                    assert(bindings_view(out0) + (seq![b@] + rest)
                                        =~= bindings_view(out@) + rest);
                                }
                            }
                            i = j + 1;
                        },
                        _ => {
                            return Err(
                                Error::UnrecognizedToken {
                                    token: (s2, t2, e2),
                                    expected: exp1(";"),
                                },
                            );
                        },
                    },
                }
            },
        }
    }
}

/// Parses a source text into its program, or the first failure
/// encountered: exactly what `spec_parse` says of the text's bytes.
pub fn parse<'a>(source: &'a str) -> (r: Result<Vec<Binding>, Error<'a>>)
    ensures
        match r {
            Ok(v) => spec_parse(source.spec_bytes()) == Ok::<Seq<BindingModel>, ErrorModel>(
                bindings_view(v@),
            ),
            Err(e) => spec_parse(source.spec_bytes()) == Err::<Seq<BindingModel>, ErrorModel>(e@),
        },
{
    let toks = tokenize(source);
    let eof = source.as_bytes().len();
    proof {
        assert(items_view(toks@) == spec_items(source.spec_bytes(), 0));
        assert(eof as int == source.spec_bytes().len() as int);
    }
    parse_program(&toks, eof)
}

} // verus!
