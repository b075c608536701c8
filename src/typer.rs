//! Runtime values of the interpreter.
use vstd::prelude::*;
use crate::number::{Num, Rat};
use crate::token::{bool_text, bool_to_string};

verus! {

/// A value produced by evaluation.
#[derive(Debug)]
pub enum Typer {
    Number(Num),
    Str(String),
    Boolean(bool),
    Nil,
}

/// The model of a value.
pub enum TyperV {
    Number(Rat),
    Str(Seq<char>),
    Boolean(bool),
    Nil,
}

impl View for Typer {
    type V = TyperV;

    open spec fn view(&self) -> TyperV {
        match self {
            Typer::Number(n) => TyperV::Number(n@),
            Typer::Str(s) => TyperV::Str(s@),
            Typer::Boolean(b) => TyperV::Boolean(*b),
            Typer::Nil => TyperV::Nil,
        }
    }
}

impl Clone for Typer {
    fn clone(&self) -> (r: Self)
        ensures
            r == *self,
    {
        match self {
            Typer::Number(n) => Typer::Number(n.clone()),
            Typer::Str(s) => Typer::Str(s.clone()),
            Typer::Boolean(b) => Typer::Boolean(*b),
            Typer::Nil => Typer::Nil,
        }
    }
}

impl TyperV {
    /// The display form of a value.
    pub open spec fn text(self) -> Seq<char> {
        match self {
            TyperV::Boolean(b) => bool_text(b),
            TyperV::Nil => "Nil"@,
            TyperV::Number(n) => n.text(),
            TyperV::Str(s) => s,
        }
    }

    /// Truthiness: `Nil` and `false` are false, every other value is true.
    pub open spec fn truthy(self) -> bool {
        match self {
            TyperV::Boolean(b) => b,
            TyperV::Nil => false,
            _ => true,
        }
    }
}

impl Typer {
    pub fn to_string(&self) -> (r: String)
        ensures
            r@ == self@.text(),
    {
        match self {
            Typer::Boolean(b) => bool_to_string(*b),
            Typer::Nil => String::from_str("Nil"),
            Typer::Number(n) => n.to_string(),
            Typer::Str(s) => s.clone(),
        }
    }
}

} // verus!
