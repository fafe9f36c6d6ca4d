//! The syntax tree: atoms and expression nodes, with their mathematical views.

use vstd::prelude::*;

verus! {

/// A literal of the source text.
#[derive(Debug, PartialEq)]
pub enum Atom {
    /// An identifier.
    Symbol(String),
    /// The raw text between two double quotes.
    String(String),
    /// A 64-bit signed integer.
    Number(i64),
    /// A 64-bit IEEE-754 value, held as its bit pattern.
    Float(u64),
}

/// What an `Atom` holds.
pub enum AtomView {
    Symbol(Seq<char>),
    String(Seq<char>),
    Number(i64),
    Float(u64),
}

impl View for Atom {
    type V = AtomView;

    open spec fn view(&self) -> AtomView {
        match self {
            Atom::Symbol(name) => AtomView::Symbol(name@),
            Atom::String(raw) => AtomView::String(raw@),
            Atom::Number(n) => AtomView::Number(*n),
            Atom::Float(bits) => AtomView::Float(*bits),
        }
    }
}

/// A node of the syntax tree.
#[derive(Debug, PartialEq)]
#[allow(inconsistent_fields)]
pub enum Expr {
    /// A bare literal.
    Constant(Atom),
    /// Binds an atom to an identifier.
    Declare { name: String, value: Atom },
    /// Calls a named function with the arguments in their written order.
    Call { name: String, args: Vec<Expr> },
    /// A named function with its parameters and the statements of its body.
    Function { name: String, args: Vec<Atom>, body: Vec<Expr> },
}

/// What an `Expr` holds.
#[allow(inconsistent_fields)]
pub enum ExprView {
    Constant(AtomView),
    Declare { name: Seq<char>, value: AtomView },
    Call { name: Seq<char>, args: Seq<ExprView> },
    Function { name: Seq<char>, args: Seq<AtomView>, body: Seq<ExprView> },
}

impl View for Expr {
    type V = ExprView;

    open spec fn view(&self) -> ExprView
        decreases self,
    {
        match self {
            Expr::Constant(atom) => ExprView::Constant(atom@),
            Expr::Declare { name, value } => ExprView::Declare { name: name@, value: value@ },
            Expr::Call { name, args } => ExprView::Call { name: name@, args: views(args@) },
            Expr::Function { name, args, body } => ExprView::Function {
                name: name@,
                args: atom_views(args@),
                body: views(body@),
            },
        }
    }
}

/// The views of a sequence of atoms, in order.
pub open spec fn atom_views(atoms: Seq<Atom>) -> Seq<AtomView> {
    Seq::new(atoms.len(), |i: int| atoms[i]@)
}

/// The views of a sequence of nodes, in order.
pub open spec fn views(nodes: Seq<Expr>) -> Seq<ExprView>
    decreases nodes,
{
    Seq::new(nodes.len(), |i: int| if 0 <= i < nodes.len() { nodes[i]@ } else { arbitrary() })
}

} // verus!
