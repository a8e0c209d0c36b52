//! The values that a program works on. A value is plain data: one that
//! names a register is read through the machine that owns the register.

use vstd::prelude::*;

verus! {

/// A value of the language.
#[derive(Debug)]
pub enum ASMValue {
    /// A literal integer.
    Int(i32),
    /// The name of a label: a place in the program.
    Label(String),
    /// The name of a register, standing for what the register holds.
    Register(String),
    /// No value yet.
    Empty,
}

/// What a value says, with names as sequences of characters.
pub enum ValueView {
    Int(i32),
    Label(Seq<char>),
    Register(Seq<char>),
    Empty,
}

impl View for ASMValue {
    type V = ValueView;

    open spec fn view(&self) -> ValueView {
        match self {
            ASMValue::Int(n) => ValueView::Int(*n),
            ASMValue::Label(name) => ValueView::Label(name@),
            ASMValue::Register(name) => ValueView::Register(name@),
            ASMValue::Empty => ValueView::Empty,
        }
    }
}

impl DeepView for ASMValue {
    type V = ValueView;

    open spec fn deep_view(&self) -> ValueView {
        self@
    }
}

impl Clone for ASMValue {
    fn clone(&self) -> (r: Self)
        ensures
            r@ == self@,
    {
        match self {
            ASMValue::Int(n) => ASMValue::Int(*n),
            ASMValue::Label(name) => ASMValue::Label(name.clone()),
            ASMValue::Register(name) => ASMValue::Register(name.clone()),
            ASMValue::Empty => ASMValue::Empty,
        }
    }
}

impl ASMValue {
    /// The value that stands for "nothing yet".
    pub fn new_empty() -> (v: Self)
        ensures
            v@ == ValueView::Empty,
    {
        ASMValue::Empty
    }

    /// The literal integer `n`.
    pub fn new_int(n: i32) -> (v: Self)
        ensures
            v@ == ValueView::Int(n),
    {
        ASMValue::Int(n)
    }

    /// A reference to the label `name`.
    pub fn new_label(name: String) -> (v: Self)
        ensures
            v@ == ValueView::Label(name@),
    {
        ASMValue::Label(name)
    }

    /// A reference to the register `name`.
    pub fn new_reg(name: String) -> (v: Self)
        ensures
            v@ == ValueView::Register(name@),
    {
        ASMValue::Register(name)
    }
}

} // verus!
