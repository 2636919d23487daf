//! Random numbers.

use rand::{Rng, RngCore};
use vstd::prelude::*;

verus! {

/// `rand::RngCore::next_u64` on the thread's generator: any word at all.
#[verifier::external_body]
fn random_word() -> (r: u64) {
    rand::thread_rng().next_u64()
}

/// `rand::Rng::gen_range` on the thread's generator: any place below `len`.
#[verifier::external_body]
fn random_index(len: usize) -> (r: usize)
    requires
        len > 0,
    ensures
        r < len,
{
    rand::thread_rng().gen_range(0..len)
}

/// `rand::RngCore::fill_bytes` on the thread's generator: any sixteen bytes.
#[verifier::external_body]
fn random_bytes() -> (r: [u8; 16]) {
    let mut bytes = [0u8; 16];
    rand::thread_rng().fill_bytes(&mut bytes);
    bytes
}

/// The generator, asked for a word, gave that one.
pub closed spec fn is_drawn_word(word: u64) -> bool {
    call_ensures(random_word, (), word)
}

/// The generator, asked for a place below `len`, gave that one.
pub closed spec fn is_drawn_index(len: usize, i: usize) -> bool {
    call_ensures(random_index, (len,), i)
}

/// The generator, asked for sixteen bytes, gave those.
pub closed spec fn are_drawn_bytes(bytes: Seq<u8>) -> bool {
    exists|a: [u8; 16]| a@ == bytes && #[trigger] call_ensures(random_bytes, (), a)
}

/// Asks the generator for a word.
pub(crate) fn draw_word() -> (word: u64)
    ensures
        is_drawn_word(word),
{
    random_word()
}

/// Asks the generator for a place below `len`.
pub(crate) fn draw_index(len: usize) -> (i: usize)
    requires
        len > 0,
    ensures
        is_drawn_index(len, i),
        i < len,
{
    random_index(len)
}

/// Asks the generator for sixteen bytes.
pub(crate) fn draw_bytes() -> (bytes: [u8; 16])
    ensures
        are_drawn_bytes(bytes@),
{
    random_bytes()
}

/// What a generator gave: a word, a place below a length, or bytes.
pub enum Draw {
    Word(u64),
    Index(usize, usize),
    Bytes(Seq<u8>),
}

/// A source of random numbers that keeps, for the proofs, all that it gave.
pub struct Generator {
    given: Ghost<Seq<Draw>>,
}

impl View for Generator {
    type V = Seq<Draw>;

    closed spec fn view(&self) -> Seq<Draw> {
        self.given@
    }
}

impl Generator {
    /// A source that has given nothing yet.
    pub fn new() -> (r: Self)
        ensures
            r@ == Seq::<Draw>::empty(),
    {
        Generator { given: Ghost(Seq::empty()) }
    }

    /// The next word.
    pub fn word(&mut self) -> (word: u64)
        ensures
            is_drawn_word(word),
            final(self)@ == old(self)@.push(Draw::Word(word)),
    {
        let word = draw_word();
        self.given = Ghost(self.given@.push(Draw::Word(word)));
        word
    }

    /// The next place below `len`.
    pub fn index(&mut self, len: usize) -> (i: usize)
        requires
            len > 0,
        ensures
            is_drawn_index(len, i),
            i < len,
            final(self)@ == old(self)@.push(Draw::Index(len, i)),
    {
        let i = draw_index(len);
        self.given = Ghost(self.given@.push(Draw::Index(len, i)));
        i
    }

    /// The next sixteen bytes.
    pub fn bytes(&mut self) -> (bytes: [u8; 16])
        ensures
            are_drawn_bytes(bytes@),
            final(self)@ == old(self)@.push(Draw::Bytes(bytes@)),
    {
        let bytes = draw_bytes();
        self.given = Ghost(self.given@.push(Draw::Bytes(bytes@)));
        bytes
    }
}

/// The word that a source gave first after it had given `before`, where it gave one.
pub open spec fn next_word(before: Seq<Draw>, after: Seq<Draw>) -> Option<u64> {
    if before.len() < after.len() && after.take(before.len() as int) == before {
        match after[before.len() as int] {
            Draw::Word(word) => Some(word),
            _ => None,
        }
    } else {
        None
    }
}

} // verus!
