//! The descriptive data of a collection, and where a token's descriptor is
//! found.

use vstd::prelude::*;

verus! {

/// The descriptive data of a token collection. The registry carries it
/// unchanged from initialization on.
#[derive(Clone, Debug, PartialEq, Eq)]
pub struct NFTMetadata {
    pub name: String,
    pub decimals: u8,
    pub symbol: String,
    pub icon: Option<String>,
    pub uri: String,
}

/// The character that writes the digit `d`.
pub open spec fn digit(d: nat) -> char {
    if d == 0 {
        '0'
    } else if d == 1 {
        '1'
    } else if d == 2 {
        '2'
    } else if d == 3 {
        '3'
    } else if d == 4 {
        '4'
    } else if d == 5 {
        '5'
    } else if d == 6 {
        '6'
    } else if d == 7 {
        '7'
    } else if d == 8 {
        '8'
    } else {
        '9'
    }
}

/// The number `n` written in decimal, without sign or leading zeros.
pub open spec fn decimal(n: nat) -> Seq<char>
    decreases n,
{
    if n < 10 {
        seq![digit(n)]
    } else {
        decimal(n / 10).push(digit(n % 10))
    }
}

/// `String::push_str` of the standard library appends the given text to
/// the string and changes nothing else. Taken on trust.
pub assume_specification[ String::push_str ](s: &mut String, string: &str)
    ensures
        final(s)@ == old(s)@ + string@,
;

/// `to_string` of the standard library on a `u128` writes the number in
/// decimal, without sign or leading zeros. Taken on trust.
#[verifier::external_body]
fn decimal_string(n: u128) -> (text: String)
    ensures
        text@ == decimal(n as nat),
{
    n.to_string()
}

impl NFTMetadata {
    /// Where the descriptor of the token `id` is found: the base address,
    /// then the identity in decimal, then `.json`.
    pub fn token_uri(&self, id: u128) -> (uri: String)
        ensures
            uri@ == self.uri@ + decimal(id as nat) + ".json"@,
    {
        let mut uri = self.uri.clone();
        let number = decimal_string(id);
        uri.push_str(number.as_str());
        uri.push_str(".json");
        uri
    }
}

} // verus!
