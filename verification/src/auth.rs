//! The shared secret: making one, and what a peer must answer.

use crate::trusted::random_below;
use vstd::prelude::*;

verus! {

/// The number of characters of a generated token.
pub const TOKEN_LENGTH: usize = 12;

/// The number of characters that a token is drawn from.
pub const ALPHABET_SIZE: usize = 62;

/// Whether `c` may stand in a generated token: an ASCII letter or digit.
pub open spec fn is_token_char(c: char) -> bool {
    ('A' <= c <= 'Z') || ('a' <= c <= 'z') || ('0' <= c <= '9')
}

/// The character at `index` of the token alphabet: the capital letters,
/// then the small letters, then the digits.
pub open spec fn alphabet_char(index: nat) -> char
    recommends
        index < ALPHABET_SIZE,
{
    if index < 26 {
        ('A' as u8 + index as u8) as char
    } else if index < 52 {
        ('a' as u8 + (index - 26) as u8) as char
    } else {
        ('0' as u8 + (index - 52) as u8) as char
    }
}

/// The token whose characters stand at `indices` in the alphabet.
pub open spec fn token_of(indices: Seq<usize>) -> Seq<char> {
    Seq::new(indices.len(), |i: int| alphabet_char(indices[i] as nat))
}

/// The character at `index` of the token alphabet.
pub fn token_char(index: usize) -> (c: char)
    requires
        index < ALPHABET_SIZE,
    ensures
        c == alphabet_char(index as nat),
        is_token_char(c),
{
    if index < 26 {
        (65u8 + index as u8) as char
    } else if index < 52 {
        (97u8 + (index - 26) as u8) as char
    } else {
        (48u8 + (index - 52) as u8) as char
    }
}

/// The token whose characters stand at `indices` in the alphabet.
pub fn token_from_indices(indices: &Vec<usize>) -> (token: String)
    requires
        forall|i: int| 0 <= i < indices.len() ==> #[trigger] indices[i] < ALPHABET_SIZE,
    ensures
        token@ == token_of(indices@),
{
    let mut token = String::new();
    let mut i: usize = 0;
    while i < indices.len()
        invariant
            i <= indices.len(),
            forall|j: int| 0 <= j < indices.len() ==> #[trigger] indices[j] < ALPHABET_SIZE,
            token@ == token_of(indices@.take(i as int)),
        decreases indices.len() - i,
    {
        token.push(token_char(indices[i]));
        i += 1;
        assert(token@ =~= token_of(indices@.take(i as int)));
    }
    assert(indices@.take(i as int) =~= indices@);
    token
}

/// A fresh token: `TOKEN_LENGTH` characters, each drawn at random from the
/// ASCII letters and digits.
pub fn generate_auth_token() -> (token: String)
    ensures
        token@.len() == TOKEN_LENGTH,
        forall|i: int| 0 <= i < token@.len() ==> is_token_char(#[trigger] token@[i]),
{
    let mut rng = rand::rng();
    let mut indices: Vec<usize> = Vec::new();
    while indices.len() < TOKEN_LENGTH
        invariant
            indices.len() <= TOKEN_LENGTH,
            forall|j: int| 0 <= j < indices.len() ==> #[trigger] indices[j] < ALPHABET_SIZE,
        decreases TOKEN_LENGTH - indices.len(),
    {
        indices.push(random_below(&mut rng, ALPHABET_SIZE));
    }
    token_from_indices(&indices)
}

/// What a peer must send to be let in when the secret is `data`: the
/// secret itself.
pub fn calculate_response(data: &str) -> (response: String)
    ensures
        response@ == data@,
{
    data.to_owned()
}

} // verus!
