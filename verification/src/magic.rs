//! The word that confirms a pairing: sixty-four letters and digits drawn at
//! random.

use vstd::prelude::*;

verus! {

/// The number of characters of a word.
pub const MAGIC_LEN: usize = 64;

/// Whether `c` is a letter of the Latin alphabet or a digit.
pub open spec fn is_alphanumeric(c: char) -> bool {
    let code = c as u32;
    ||| 0x30 <= code <= 0x39
    ||| 0x41 <= code <= 0x5a
    ||| 0x61 <= code <= 0x7a
}

/// Whether `word` is as long as a word has to be and made of letters and
/// digits alone.
pub open spec fn is_magic(word: Seq<char>) -> bool {
    &&& word.len() == MAGIC_LEN
    &&& forall|i: int| 0 <= i < word.len() ==> is_alphanumeric(#[trigger] word[i])
}

/// The generator of `rand` that belongs to the running thread. Nothing is
/// known of what it holds.
#[verifier::external_type_specification]
#[verifier::external_body]
pub struct ExThreadRng(rand::rngs::ThreadRng);

/// `String::push` writes the character behind what the string holds.
pub assume_specification[ String::push ](s: &mut String, ch: char)
    ensures
        final(s)@ == old(s)@.push(ch),
;

/// Calls `rand::thread_rng` for the generator of the running thread. Nothing
/// is claimed of it.
#[verifier::external_body]
fn thread_generator() -> (generator: rand::rngs::ThreadRng) {
    rand::thread_rng()
}

/// Calls `rand::Rng::sample` with `rand::distributions::Alphanumeric`, which
/// draws one of the characters a-z, A-Z and 0-9. Which one it draws is not
/// claimed.
#[verifier::external_body]
fn sample_alphanumeric(generator: &mut rand::rngs::ThreadRng) -> (c: char)
    ensures
        is_alphanumeric(c),
{
    rand::Rng::sample(generator, rand::distributions::Alphanumeric)
}

/// Draws a new word.
pub fn new_magic() -> (magic: String)
    ensures
        is_magic(magic@),
{
    let mut generator = thread_generator();
    let mut magic = String::new();
    let mut drawn: usize = 0;
    while drawn < MAGIC_LEN
        invariant
            drawn <= MAGIC_LEN,
            magic@.len() == drawn,
            forall|i: int| 0 <= i < magic@.len() ==> is_alphanumeric(#[trigger] magic@[i]),
        decreases MAGIC_LEN - drawn,
    {
        let c = sample_alphanumeric(&mut generator);
        magic.push(c);
        drawn += 1;
    }
    magic
}

} // verus!
