//! The tree shapes a conforming parser produces: propositions, typed lambda
//! expressions, and top-level bindings.  Every node owns its children; the
//! trees are built once, bottom-up, and never mutated.
//!
//! Each shape has a spec-level model (`PropModel` and friends) in which a
//! name is its character sequence; the parser's contracts speak of those
//! models.

use vstd::prelude::*;

verus! {

/// A propositional formula.  Binary connectives are strictly binary.
#[derive(Debug, PartialEq, Eq)]
pub enum Prop {
    True,
    And(Box<Prop>, Box<Prop>),
    Or(Box<Prop>, Box<Prop>),
    Neg(Box<Prop>),
    Imp(Box<Prop>, Box<Prop>),
    Iff(Box<Prop>, Box<Prop>),
    Var(String),
}

/// A top-level binding: a named definition with an optional type
/// annotation, or a bare variable declaration.
#[derive(Debug, PartialEq, Eq)]
pub enum Binding {
    Bind(String, Box<Expr>, Option<Typ>),
    Var(String, Option<Typ>),
}

/// A type is a proposition, read the Curry-Howard way.
#[derive(Debug, PartialEq, Eq)]
pub enum Typ {
    Typ(Prop),
}

/// A lambda term: an abstraction over a binding, a lifted proposition, or a
/// left-associative application.
#[derive(Debug, PartialEq, Eq)]
pub enum Expr {
    Lambda(Box<Binding>, Box<Expr>, Option<Typ>),
    Prop(Box<Prop>),
    App(Box<Expr>, Box<Expr>),
}

/// Model of a proposition, with names as character sequences.
pub enum PropModel {
    True,
    And(Box<PropModel>, Box<PropModel>),
    Or(Box<PropModel>, Box<PropModel>),
    Neg(Box<PropModel>),
    Imp(Box<PropModel>, Box<PropModel>),
    Iff(Box<PropModel>, Box<PropModel>),
    Var(Seq<char>),
}

/// Model of a top-level binding.
pub enum BindingModel {
    Bind(Seq<char>, Box<ExprModel>, Option<TypModel>),
    Var(Seq<char>, Option<TypModel>),
}

/// Model of a type.
pub enum TypModel {
    Typ(PropModel),
}

/// Model of an expression.
pub enum ExprModel {
    Lambda(Box<BindingModel>, Box<ExprModel>, Option<TypModel>),
    Prop(Box<PropModel>),
    App(Box<ExprModel>, Box<ExprModel>),
}

/// The model of a proposition tree.
pub open spec fn prop_view(p: Prop) -> PropModel
    decreases p,
{
    match p {
        Prop::True => PropModel::True,
        Prop::And(a, b) => PropModel::And(Box::new(prop_view(*a)), Box::new(prop_view(*b))),
        Prop::Or(a, b) => PropModel::Or(Box::new(prop_view(*a)), Box::new(prop_view(*b))),
        Prop::Neg(a) => PropModel::Neg(Box::new(prop_view(*a))),
        Prop::Imp(a, b) => PropModel::Imp(Box::new(prop_view(*a)), Box::new(prop_view(*b))),
        Prop::Iff(a, b) => PropModel::Iff(Box::new(prop_view(*a)), Box::new(prop_view(*b))),
        Prop::Var(s) => PropModel::Var(s@),
    }
}

/// The model of a type.
pub open spec fn typ_view(t: Typ) -> TypModel {
    match t {
        Typ::Typ(p) => TypModel::Typ(prop_view(p)),
    }
}

/// The model of an optional type annotation.
pub open spec fn typ_opt_view(t: Option<Typ>) -> Option<TypModel> {
    match t {
        Option::None => Option::None,
        Option::Some(ty) => Option::Some(typ_view(ty)),
    }
}

/// The model of an expression tree.
pub open spec fn expr_view(e: Expr) -> ExprModel
    decreases e,
{
    match e {
        Expr::Lambda(b, body, t) => ExprModel::Lambda(
            Box::new(binding_view(*b)),
            Box::new(expr_view(*body)),
            typ_opt_view(t),
        ),
        Expr::Prop(p) => ExprModel::Prop(Box::new(prop_view(*p))),
        Expr::App(f, a) => ExprModel::App(Box::new(expr_view(*f)), Box::new(expr_view(*a))),
    }
}

/// The model of a binding.
pub open spec fn binding_view(b: Binding) -> BindingModel
    decreases b,
{
    match b {
        Binding::Bind(name, e, t) => BindingModel::Bind(
            name@,
            Box::new(expr_view(*e)),
            typ_opt_view(t),
        ),
        Binding::Var(name, t) => BindingModel::Var(name@, typ_opt_view(t)),
    }
}

impl View for Prop {
    type V = PropModel;

    open spec fn view(&self) -> PropModel {
        prop_view(*self)
    }
}

/// How a proposition reads when displayed.
pub open spec fn spec_prop_text(p: PropModel) -> Seq<char>
    decreases p,
{
    match p {
        PropModel::True => "⊤"@,
        PropModel::Neg(a) => "Neg("@ + spec_prop_text(*a) + ")"@,
        PropModel::Iff(a, b) => "Iff("@ + spec_prop_text(*a) + " ↔ "@ + spec_prop_text(*b)
            + ")"@,
        PropModel::And(a, b) => "And("@ + spec_prop_text(*a) + " ∧ "@ + spec_prop_text(*b)
            + ")"@,
        PropModel::Or(a, b) => "Or("@ + spec_prop_text(*a) + " ∨ "@ + spec_prop_text(*b) + ")"@,
        PropModel::Imp(a, b) => "Imp("@ + spec_prop_text(*a) + " → "@ + spec_prop_text(*b)
            + ")"@,
        PropModel::Var(s) => "Var("@ + s + ")"@,
    }
}

/// How a type reads when displayed.
pub open spec fn spec_typ_text(t: TypModel) -> Seq<char> {
    match t {
        TypModel::Typ(p) => "Typ("@ + spec_prop_text(p) + ")"@,
    }
}

/// How an optional type annotation reads when displayed.
pub open spec fn spec_typ_opt_text(t: Option<TypModel>) -> Seq<char> {
    match t {
        Option::None => "None"@,
        Option::Some(ty) => "Some("@ + spec_typ_text(ty) + ")"@,
    }
}

/// How an expression reads when displayed.
pub open spec fn spec_expr_text(e: ExprModel) -> Seq<char>
    decreases e,
{
    match e {
        ExprModel::App(f, a) => "App("@ + spec_expr_text(*f) + " "@ + spec_expr_text(*a) + ")"@,
        ExprModel::Prop(p) => "Prop("@ + spec_prop_text(*p) + ")"@,
        ExprModel::Lambda(b, body, t) => "Lambda((ⲗ "@ + spec_binding_text(*b) + ". "@
            + spec_expr_text(*body) + ") : "@ + spec_typ_opt_text(t) + ")"@,
    }
}

/// How a binding reads when displayed.
pub open spec fn spec_binding_text(b: BindingModel) -> Seq<char>
    decreases b,
{
    match b {
        BindingModel::Bind(name, e, t) => "Bind("@ + name + " : "@ + spec_typ_opt_text(t)
            + " ≔ "@ + spec_expr_text(*e) + ")"@,
        BindingModel::Var(name, t) => "Var("@ + name + ", "@ + spec_typ_opt_text(t) + ")"@,
    }
}

impl Prop {
    /// Renders the proposition, labeling each connective.
    pub fn to_text(&self) -> (r: String)
        ensures
            r@ == spec_prop_text(self@),
        decreases *self,
    {
        match self {
            Prop::True => String::from_str("⊤"),
            Prop::Neg(a) => {
                let mut s = String::from_str("Neg(");
                s.append(a.to_text().as_str());
                s.append(")");
                s
            },
            Prop::Iff(a, b) => {
                let mut s = String::from_str("Iff(");
                s.append(a.to_text().as_str());
                s.append(" ↔ ");
                s.append(b.to_text().as_str());
                s.append(")");
                s
            },
            Prop::And(a, b) => {
                let mut s = String::from_str("And(");
                s.append(a.to_text().as_str());
                s.append(" ∧ ");
                s.append(b.to_text().as_str());
                s.append(")");
                s
            },
            Prop::Or(a, b) => {
                let mut s = String::from_str("Or(");
                s.append(a.to_text().as_str());
                s.append(" ∨ ");
                s.append(b.to_text().as_str());
                s.append(")");
                s
            },
            Prop::Imp(a, b) => {
                let mut s = String::from_str("Imp(");
                s.append(a.to_text().as_str());
                s.append(" → ");
                s.append(b.to_text().as_str());
                s.append(")");
                s
            },
            Prop::Var(name) => {
                let mut s = String::from_str("Var(");
                s.append(name.as_str());
                s.append(")");
                s
            },
        }
    }
}

impl Typ {
    /// Renders the type as the proposition it wraps.
    pub fn to_text(&self) -> (r: String)
        ensures
            r@ == spec_typ_text(self@),
    {
        match self {
            Typ::Typ(p) => {
                let mut s = String::from_str("Typ(");
                s.append(p.to_text().as_str());
                s.append(")");
                s
            },
        }
    }
}

/// Renders an optional type annotation.
fn typ_opt_text(t: &Option<Typ>) -> (r: String)
    ensures
        r@ == spec_typ_opt_text(typ_opt_view(*t)),
{
    match t {
        Option::None => String::from_str("None"),
        Option::Some(ty) => {
            let mut s = String::from_str("Some(");
            s.append(ty.to_text().as_str());
            s.append(")");
            s
        },
    }
}

impl Expr {
    /// Renders the expression, labeling each node.
    pub fn to_text(&self) -> (r: String)
        ensures
            r@ == spec_expr_text(self@),
        decreases *self,
    {
        match self {
            Expr::App(f, a) => {
                let mut s = String::from_str("App(");
                s.append(f.to_text().as_str());
                s.append(" ");
                s.append(a.to_text().as_str());
                s.append(")");
                s
            },
            Expr::Prop(p) => {
                let mut s = String::from_str("Prop(");
                s.append(p.to_text().as_str());
                s.append(")");
                s
            },
            Expr::Lambda(b, body, t) => {
                let mut s = String::from_str("Lambda((ⲗ ");
                s.append(b.to_text().as_str());
                s.append(". ");
                s.append(body.to_text().as_str());
                s.append(") : ");
                s.append(typ_opt_text(t).as_str());
                s.append(")");
                s
            },
        }
    }
}

impl Binding {
    /// Renders the binding, with its annotation and definition.
    pub fn to_text(&self) -> (r: String)
        ensures
            r@ == spec_binding_text(self@),
        decreases *self,
    {
        match self {
            Binding::Bind(name, e, t) => {
                let mut s = String::from_str("Bind(");
                s.append(name.as_str());
                s.append(" : ");
                s.append(typ_opt_text(t).as_str());
                s.append(" ≔ ");
                s.append(e.to_text().as_str());
                s.append(")");
                s
            },
            Binding::Var(name, t) => {
                let mut s = String::from_str("Var(");
                s.append(name.as_str());
                s.append(", ");
                s.append(typ_opt_text(t).as_str());
                s.append(")");
                s
            },
        }
    }
}

impl View for Typ {
    type V = TypModel;

    open spec fn view(&self) -> TypModel {
        typ_view(*self)
    }
}

impl View for Expr {
    type V = ExprModel;

    open spec fn view(&self) -> ExprModel {
        expr_view(*self)
    }
}

impl View for Binding {
    type V = BindingModel;

    open spec fn view(&self) -> BindingModel {
        binding_view(*self)
    }
}

} // verus!
