//! Lexical units and the values they carry.

use vstd::prelude::*;

verus! {

/// The kind of a lexical unit.
#[derive(Debug, PartialEq, Eq, Clone, Copy, Structural)]
pub enum TokenType {
    // Types
    Integer,
    Real,
    IntegerConst,
    RealConst,
    // Operators
    Plus,
    Minus,
    Mul,
    IntegerDiv,
    FloatDiv,
    RightParen,
    LeftParen,
    // Reserved keywords
    Program,
    Var,
    Begin,
    End,
    Procedure,
    ID,
    Assign,
    Semi,
    Dot,
    Colon,
    Comma,
    EOF,
}

/// A real number, held as the bit pattern of its IEEE 754 single-precision
/// encoding. The library moves reals around, compares them and flips their
/// sign; every other operation on them is supplied by the caller.
#[derive(Debug, Clone, Copy)]
pub struct Real {
    pub bits: u32,
}

impl Real {
    /// Whether the pattern encodes "not a number": the exponent is all ones
    /// and the fraction is not zero.
    pub open spec fn is_nan(self) -> bool {
        (self.bits & 0x7fff_ffffu32) > 0x7f80_0000u32
    }

    /// Whether the pattern encodes positive or negative zero.
    pub open spec fn is_zero(self) -> bool {
        (self.bits & 0x7fff_ffffu32) == 0u32
    }

    /// IEEE 754 equality: a NaN equals nothing, the two zeros are equal, and
    /// every other real equals only itself.
    pub open spec fn same_number(self, other: Real) -> bool {
        &&& !self.is_nan()
        &&& !other.is_nan()
        &&& (self.bits == other.bits || (self.is_zero() && other.is_zero()))
    }

    /// The real with the sign bit flipped.
    pub open spec fn negation(self) -> Real {
        Real { bits: self.bits ^ 0x8000_0000u32 }
    }

    /// The real with the given bit pattern.
    pub fn from_bits(bits: u32) -> (out: Real)
        ensures
            out.bits == bits,
    {
        Real { bits }
    }

    /// The bit pattern of the real.
    pub fn to_bits(self) -> (bits: u32)
        ensures
            bits == self.bits,
    {
        self.bits
    }

    /// Arithmetic negation, which in IEEE 754 is a flip of the sign bit.
    pub fn negated(self) -> (out: Real)
        ensures
            out == self.negation(),
    {
        Real { bits: self.bits ^ 0x8000_0000u32 }
    }
}

impl PartialEq for Real {
    fn eq(&self, other: &Real) -> (equal: bool) {
        let a: u32 = self.bits & 0x7fff_ffffu32;
        let b: u32 = other.bits & 0x7fff_ffffu32;
        a <= 0x7f80_0000u32 && b <= 0x7f80_0000u32 && (self.bits == other.bits || (a == 0 && b
            == 0))
    }
}

impl vstd::std_specs::cmp::PartialEqSpecImpl for Real {
    open spec fn obeys_eq_spec() -> bool {
        true
    }

    open spec fn eq_spec(&self, other: &Real) -> bool {
        self.same_number(*other)
    }
}

/// What a token or a syntax node carries: a number, a piece of text, or nothing.
#[derive(Debug, PartialEq)]
pub enum Value {
    Float(Real),
    Integer(i32),
    Char(char),
    String(String),
    Absent,
}

/// The mathematical content of a [`Value`].
pub enum ValueView {
    Float(Real),
    Integer(i32),
    Char(char),
    String(Seq<char>),
    Absent,
}

impl View for Value {
    type V = ValueView;

    open spec fn view(&self) -> ValueView {
        match self {
            Value::Float(r) => ValueView::Float(*r),
            Value::Integer(n) => ValueView::Integer(*n),
            Value::Char(c) => ValueView::Char(*c),
            Value::String(s) => ValueView::String(s@),
            Value::Absent => ValueView::Absent,
        }
    }
}

impl Clone for Value {
    fn clone(&self) -> (copy: Value)
        ensures
            copy@ == self@,
    {
        match self {
            Value::Float(r) => Value::Float(*r),
            Value::Integer(n) => Value::Integer(*n),
            Value::Char(c) => Value::Char(*c),
            Value::String(s) => Value::String(s.clone()),
            Value::Absent => Value::Absent,
        }
    }
}

impl Value {
    /// The text of a value that is known to be text.
    pub fn expect_string(&self) -> (text: String)
        requires
            self is String,
        ensures
            self@ == ValueView::String(text@),
    {
        match self {
            Value::String(s) => s.clone(),
            _ => String::new(),
        }
    }
}

/// A lexical unit with the place in the source where it ended.
#[derive(Debug, PartialEq)]
pub struct Token {
    pub type_: TokenType,
    pub value: Value,
    pub lineno: usize,
    pub column: usize,
}

/// The mathematical content of a [`Token`].
pub struct TokenView {
    pub type_: TokenType,
    pub value: ValueView,
    pub lineno: usize,
    pub column: usize,
}

impl View for Token {
    type V = TokenView;

    open spec fn view(&self) -> TokenView {
        TokenView {
            type_: self.type_,
            value: self.value@,
            lineno: self.lineno,
            column: self.column,
        }
    }
}

impl Clone for Token {
    fn clone(&self) -> (copy: Token)
        ensures
            copy@ == self@,
    {
        Token {
            type_: self.type_,
            value: self.value.clone(),
            lineno: self.lineno,
            column: self.column,
        }
    }
}

impl Token {
    /// The token of the given type and value that ends at the given place.
    pub fn new(type_: TokenType, value: Value, lineno: usize, column: usize) -> (token: Token)
        ensures
            token == (Token { type_, value, lineno, column }),
    {
        Token { type_, value, lineno, column }
    }
}

} // verus!
