//! Tokens: tagged values produced by the scanning loop. A token carries
//! the name of the rule that built it (its variant discriminant), the span
//! it was matched at, and, for pattern rules, the matched text as a value.

use vstd::prelude::*;

use crate::span::Span;
use crate::span::SpanV;

verus! {

/// One lexed token: `name` is the variant discriminant (the name of the
/// rule that matched), `position` the span of the matched text in the
/// source, and `value` the matched text itself for pattern rules (`None`
/// for fixed-text rules).
#[derive(Debug)]
pub struct Token {
    pub name: String,
    pub position: Span,
    pub value: Option<String>,
}

/// The mathematical value of a `Token`.
#[verifier::ext_equal]
pub ghost struct TokenV {
    pub name: Seq<char>,
    pub position: SpanV,
    pub value: Option<Seq<char>>,
}

impl View for Token {
    type V = TokenV;

    open spec fn view(&self) -> TokenV {
        TokenV {
            name: self.name@,
            position: self.position@,
            value: match self.value {
                Some(v) => Some(v@),
                None => None,
            },
        }
    }
}

impl Token {
    /// The token's variant discriminant: the name of the rule that built it.
    pub fn get_name(&self) -> (r: String)
        ensures
            r@ == self@.name,
    {
        self.name.clone()
    }

    /// The span the token was matched at.
    pub fn position(&self) -> (r: Span)
        ensures
            r@ == self@.position,
    {
        self.position.clone()
    }
}

/// Two tokens compare equal exactly when they carry the same variant
/// discriminant: the carried value and the span play no part. This mirrors
/// the degenerate span equality and is a deliberate design choice of the
/// library; a caller who wants value-sensitive comparison must compare the
/// fields directly.
impl PartialEq for Token {
    fn eq(&self, other: &Token) -> (r: bool) {
        self.name == other.name
    }
}

impl Eq for Token {}

impl vstd::std_specs::cmp::PartialEqSpecImpl for Token {
    open spec fn obeys_eq_spec() -> bool {
        true
    }

    open spec fn eq_spec(&self, other: &Token) -> bool {
        self.name@ == other.name@
    }
}

/// Token equality looks only at the discriminant: two tokens with the same
/// name are equal under `eq_spec` whatever their values and spans.
pub proof fn lemma_token_eq_ignores_value(a: Token, b: Token)
    requires
        a.name@ == b.name@,
    ensures
        vstd::std_specs::cmp::PartialEqSpec::eq_spec(&a, &b),
{
}

} // verus!
