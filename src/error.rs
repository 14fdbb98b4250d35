use std::rc::Rc;

use vstd::prelude::*;

use crate::atom::Atom;

verus! {

/// The kind of value an operation expected.
#[derive(PartialEq, Eq, Structural, Clone, Copy, Debug)]
pub enum TypeName {
    Number,
    String,
    Symbol,
    List,
    Closure,
}

/// Everything that evaluation can fail with.
#[derive(Debug)]
pub enum LispError {
    /// No frame of the environment binds the name.
    UnboundSymbol(String),
    /// A special form or procedure got the wrong number of operands: the
    /// form's name, the operands it got, and how many it takes.
    BadArity { form: String, got: Rc<Atom>, arity: usize },
    TypeMismatch { expected: TypeName, got: Rc<Atom> },
    /// A combination that is a dotted list.
    ImproperApplication(Rc<Atom>),
    /// The operator evaluated to something that cannot be applied.
    NotApplicable(Rc<Atom>),
    /// A formal that is not a symbol, or a body that is not a proper list.
    InvalidClosureForm(Rc<Atom>),
    /// A macro value in value position.
    MacroEvaluated(Rc<Atom>),
    TooFewArguments,
    TooManyArguments,
    /// Evaluation nested deeper than the limit it was given.
    TooDeep,
}

} // verus!
