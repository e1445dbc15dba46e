//! Operators that relate a label key to the values of a requirement.

use crate::pkg::text::{chars_of, spells};
use vstd::prelude::*;
use vstd::string::StringExecFns;

verus! {

/// Operator represents a key's relationship to value(s).
#[derive(Clone, Copy, Debug, PartialEq, Eq, Structural)]
pub enum Operator {
    DoesNotExist,
    Equals,
    DoubleEquals,
    In,
    NotEquals,
    NotIn,
    Exists,
    GreaterThan,
    LessThan,
}

/// The error of parsing a text that is no operator token.
#[derive(Debug, PartialEq, Eq, Structural)]
pub struct InvalidOperator;

impl Operator {
    /// The canonical token of the operator, as a sequence of characters.
    pub open spec fn token(self) -> Seq<char> {
        match self {
            Operator::DoesNotExist => seq!['!'],
            Operator::Equals => seq!['='],
            Operator::DoubleEquals => seq!['=', '='],
            Operator::In => seq!['i', 'n'],
            Operator::NotEquals => seq!['!', '='],
            Operator::NotIn => seq!['n', 'o', 't', 'i', 'n'],
            Operator::Exists => seq!['e', 'x', 'i', 's', 't', 's'],
            Operator::GreaterThan => seq!['g', 't'],
            Operator::LessThan => seq!['l', 't'],
        }
    }

    /// The operator that a text denotes: the one whose token it is, if any.
    pub open spec fn from_token(text: Seq<char>) -> Option<Operator> {
        if text == Operator::DoesNotExist.token() {
            Some(Operator::DoesNotExist)
        } else if text == Operator::Equals.token() {
            Some(Operator::Equals)
        } else if text == Operator::DoubleEquals.token() {
            Some(Operator::DoubleEquals)
        } else if text == Operator::In.token() {
            Some(Operator::In)
        } else if text == Operator::NotEquals.token() {
            Some(Operator::NotEquals)
        } else if text == Operator::NotIn.token() {
            Some(Operator::NotIn)
        } else if text == Operator::Exists.token() {
            Some(Operator::Exists)
        } else if text == Operator::GreaterThan.token() {
            Some(Operator::GreaterThan)
        } else if text == Operator::LessThan.token() {
            Some(Operator::LessThan)
        } else {
            None
        }
    }

    /// Renders the operator as its canonical token.
    pub fn as_str(&self) -> (s: &str)
        ensures
            s@ == self.token(),
    {
        proof {
            reveal_strlit("!");
            reveal_strlit("=");
            reveal_strlit("==");
            reveal_strlit("in");
            reveal_strlit("!=");
            reveal_strlit("notin");
            reveal_strlit("exists");
            reveal_strlit("gt");
            reveal_strlit("lt");
        }
        let s = match self {
            Operator::DoesNotExist => "!",
            Operator::Equals => "=",
            Operator::DoubleEquals => "==",
            Operator::In => "in",
            Operator::NotEquals => "!=",
            Operator::NotIn => "notin",
            Operator::Exists => "exists",
            Operator::GreaterThan => "gt",
            Operator::LessThan => "lt",
        };
        assert(s@ =~= self.token());
        s
    }

    /// Renders the operator as an owned text: its canonical token.
    pub fn to_string(&self) -> (text: String)
        ensures
            text@ == self.token(),
    {
        String::from_str(self.as_str())
    }

    /// Reads an operator from its canonical token. The match is exact: case
    /// counts and nothing is trimmed, so every other text is refused.
    pub fn parse(text: &str) -> (parsed: Result<Operator, InvalidOperator>)
        ensures
            parsed == match Operator::from_token(text@) {
                Some(operator) => Ok::<Operator, InvalidOperator>(operator),
                None => Err(InvalidOperator),
            },
    {
        let chars = chars_of(text);
        if spells(&chars, Operator::DoesNotExist.as_str()) {
            Ok(Operator::DoesNotExist)
        } else if spells(&chars, Operator::Equals.as_str()) {
            Ok(Operator::Equals)
        } else if spells(&chars, Operator::DoubleEquals.as_str()) {
            Ok(Operator::DoubleEquals)
        } else if spells(&chars, Operator::In.as_str()) {
            Ok(Operator::In)
        } else if spells(&chars, Operator::NotEquals.as_str()) {
            Ok(Operator::NotEquals)
        } else if spells(&chars, Operator::NotIn.as_str()) {
            Ok(Operator::NotIn)
        } else if spells(&chars, Operator::Exists.as_str()) {
            Ok(Operator::Exists)
        } else if spells(&chars, Operator::GreaterThan.as_str()) {
            Ok(Operator::GreaterThan)
        } else if spells(&chars, Operator::LessThan.as_str()) {
            Ok(Operator::LessThan)
        } else {
            Err(InvalidOperator)
        }
    }
}

impl std::str::FromStr for Operator {
    type Err = InvalidOperator;

    fn from_str(text: &str) -> (parsed: Result<Self, Self::Err>)
        ensures
            parsed == match Operator::from_token(text@) {
                Some(operator) => Ok::<Operator, InvalidOperator>(operator),
                None => Err(InvalidOperator),
            },
    {
        Operator::parse(text)
    }
}

/// Every operator is read back from its own token.
pub proof fn lemma_token_round_trip(operator: Operator)
    ensures
        Operator::from_token(operator.token()) == Some(operator),
{
    lemma_tokens_differ();
}

/// A text is read as an operator exactly when it is that operator's token, so
/// a text that is no operator's token is read as none.
pub proof fn lemma_from_token_exact(text: Seq<char>)
    ensures
        forall|operator: Operator|
            Operator::from_token(text) == Some(operator) <==> text == operator.token(),
        Operator::from_token(text) is None <==> forall|operator: Operator|
            text != operator.token(),
{
    lemma_tokens_differ();
    assert forall|operator: Operator| text == operator.token() implies Operator::from_token(text)
        == Some(operator) by {}
}

/// No two operators share a token.
pub proof fn lemma_tokens_differ()
    ensures
        forall|a: Operator, b: Operator| a.token() == b.token() ==> a == b,
{
    assert forall|a: Operator, b: Operator| a.token() == b.token() implies a == b by {
        if a != b {
            assert(a.token().len() != b.token().len() || a.token()[0] != b.token()[0]
                || a.token()[1] != b.token()[1]);
        }
    }
}

} // verus!
