//! The five binary operators and their binding strength.
use crate::error::ErrorKind;
use vstd::prelude::*;

verus! {

/// How tightly a symbol binds: `+ -` bind least, then `* /`, then `^`.
/// Every other symbol, the opening parenthesis among them, has strength 0
/// and is therefore never reduced by a comparison of strengths.
pub open spec fn precedence_of(symbol: char) -> u8 {
    if symbol == '+' || symbol == '-' {
        1
    } else if symbol == '*' || symbol == '/' {
        2
    } else if symbol == '^' {
        3
    } else {
        0
    }
}

/// The binding strength of `symbol`.
pub fn precedence(symbol: char) -> (level: u8)
    ensures
        level == precedence_of(symbol),
{
    match symbol {
        '+' | '-' => 1,
        '*' | '/' => 2,
        '^' => 3,
        _ => 0,
    }
}

/// A binary operator.
#[derive(Clone, Copy, Debug, PartialEq, Eq, Structural)]
pub enum Operator {
    /// `+`
    Add,
    /// `-`
    Subtract,
    /// `*`
    Multiply,
    /// `/`
    Divide,
    /// `^`, which groups to the left like the others: `2 ^ 3 ^ 2` is `(2 ^ 3) ^ 2`.
    Power,
}

impl Operator {
    /// The character that stands for the operator in an expression.
    pub open spec fn spec_symbol(self) -> char {
        match self {
            Operator::Add => '+',
            Operator::Subtract => '-',
            Operator::Multiply => '*',
            Operator::Divide => '/',
            Operator::Power => '^',
        }
    }

    /// The operator that `symbol` stands for, if it is one of `+ - * / ^`.
    pub open spec fn spec_from_symbol(symbol: char) -> Result<Operator, ErrorKind> {
        if symbol == '+' {
            Ok(Operator::Add)
        } else if symbol == '-' {
            Ok(Operator::Subtract)
        } else if symbol == '*' {
            Ok(Operator::Multiply)
        } else if symbol == '/' {
            Ok(Operator::Divide)
        } else if symbol == '^' {
            Ok(Operator::Power)
        } else {
            Err(ErrorKind::UnknownOperator)
        }
    }

    /// The binding strength of the operator, from 1 to 3.
    pub open spec fn spec_precedence(self) -> u8 {
        precedence_of(self.spec_symbol())
    }

    /// Whether the operator is `+` or `-`, the two after which a percentage
    /// is taken of the running total.
    pub open spec fn spec_is_additive(self) -> bool {
        self == Operator::Add || self == Operator::Subtract
    }

    /// The character that stands for the operator in an expression.
    #[verifier::when_used_as_spec(spec_symbol)]
    pub fn symbol(self) -> (symbol: char)
        ensures
            symbol == self.spec_symbol(),
    {
        match self {
            Operator::Add => '+',
            Operator::Subtract => '-',
            Operator::Multiply => '*',
            Operator::Divide => '/',
            Operator::Power => '^',
        }
    }

    /// Reads an operator symbol.  Any character other than `+ - * / ^` is
    /// answered with [`ErrorKind::UnknownOperator`].
    pub fn from_symbol(symbol: char) -> (operator: Result<Operator, ErrorKind>)
        ensures
            operator == Operator::spec_from_symbol(symbol),
    {
        match symbol {
            '+' => Ok(Operator::Add),
            '-' => Ok(Operator::Subtract),
            '*' => Ok(Operator::Multiply),
            '/' => Ok(Operator::Divide),
            '^' => Ok(Operator::Power),
            _ => Err(ErrorKind::UnknownOperator),
        }
    }

    /// The binding strength of the operator, from 1 to 3.
    #[verifier::when_used_as_spec(spec_precedence)]
    pub fn precedence(self) -> (level: u8)
        ensures
            level == self.spec_precedence(),
            1 <= level <= 3,
    {
        precedence(self.symbol())
    }

    /// Whether the operator is `+` or `-`.
    #[verifier::when_used_as_spec(spec_is_additive)]
    pub fn is_additive(self) -> (additive: bool)
        ensures
            additive == self.spec_is_additive(),
    {
        match self {
            Operator::Add | Operator::Subtract => true,
            _ => false,
        }
    }

    /// Symbol and operator determine each other: reading the symbol of an
    /// operator gives the operator back, and a character that reads as an
    /// operator is that operator's symbol.
    pub proof fn lemma_symbol_round_trip(self, symbol: char)
        ensures
            Operator::spec_from_symbol(self.spec_symbol()) == Ok::<Operator, ErrorKind>(self),
            Operator::spec_from_symbol(symbol) == Ok::<Operator, ErrorKind>(self) <==> symbol
                == self.spec_symbol(),
    {
    }
}

} // verus!
