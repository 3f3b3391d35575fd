//! Where dice come from.
//!
//! A [`DieSource`] hands out one face at a time. Its [`Supply`] keeps the
//! books: which faces the source has given so far and, for a source whose
//! faces were fixed in advance, which are still to come. What a function did
//! with a source is then a relation between the supply that it found and the
//! supply that it left.

use vstd::prelude::*;
use rand::rngs::ThreadRng;
use rand::Rng;
use crate::dice::{all_faces, check_faces, is_face};

verus! {

/// The smallest face of a die.
pub const LOWEST_FACE: u8 = 1;

/// The largest face of a die.
pub const HIGHEST_FACE: u8 = 6;

/// The books of a source of dice.
pub struct Supply {
    /// The faces that the source has given so far, the oldest first.
    pub given: Seq<u8>,
    /// The faces that the source will give from now on, in their order, where
    /// they were fixed in advance: once they are used up, the source fails.
    /// `None` for a source that never runs dry and whose faces nobody knows
    /// beforehand.
    pub script: Option<Seq<u8>>,
}

/// Whether a source that stood at `before` gave exactly `dice`, in this order,
/// and then stood at `after`.
///
/// All of `dice` are faces and are entered in the books. A script loses them
/// from its front, so it must have held them there.
pub open spec fn gave(before: Supply, dice: Seq<u8>, after: Supply) -> bool {
    &&& all_faces(dice)
    &&& after.given == before.given + dice
    &&& match before.script {
        Some(faces) => {
            &&& dice.len() <= faces.len()
            &&& dice == faces.take(dice.len() as int)
            &&& after.script == Some(faces.skip(dice.len() as int))
        },
        None => after.script is None,
    }
}

/// The dice that a source gave on its way from `before` to `after`.
pub open spec fn dice_between(before: Supply, after: Supply) -> Seq<u8> {
    after.given.skip(before.given.len() as int)
}

/// What one draw does: `before` is the supply that it found, `face` what it
/// returned and `after` the supply that it left.
///
/// A draw that succeeds gives one die. A draw fails only on a script that is
/// used up, and changes nothing then.
pub open spec fn drew(before: Supply, face: Option<u8>, after: Supply) -> bool {
    match face {
        Some(face) => gave(before, seq![face], after),
        None => after == before && before.script == Some(Seq::<u8>::empty()),
    }
}

/// A source of six-sided dice.
pub trait DieSource {
    /// The books of the source.
    spec fn supply(&self) -> Supply;

    /// Throws one die. `None` means that the source has run dry.
    fn draw(&mut self) -> (face: Option<u8>)
        ensures
            drew(old(self).supply(), face, final(self).supply()),
    ;
}

/// A source that gives no die stays where it is.
pub proof fn lemma_gave_nothing(supply: Supply)
    ensures
        gave(supply, Seq::empty(), supply),
{
    if let Some(faces) = supply.script {
        assert(faces.take(0) == Seq::<u8>::empty());
        assert(faces.skip(0) == faces);
    }
}

/// Dice given one batch after the other are given as one batch.
pub proof fn lemma_gave_in_turn(
    before: Supply,
    first: Seq<u8>,
    between: Supply,
    second: Seq<u8>,
    after: Supply,
)
    requires
        gave(before, first, between),
        gave(between, second, after),
    ensures
        gave(before, first + second, after),
{
    let dice = first + second;
    assert(all_faces(dice)) by {
        assert forall|i: int| 0 <= i < dice.len() implies is_face(#[trigger] dice[i]) by {
            if i < first.len() {
                assert(dice[i] == first[i]);
            } else {
                assert(dice[i] == second[i - first.len()]);
            }
        }
    }
    assert(before.given + dice == (before.given + first) + second);
    if let Some(faces) = before.script {
        let rest = faces.skip(first.len() as int);
        assert(faces.take(dice.len() as int) == faces.take(first.len() as int) + rest.take(
            second.len() as int,
        ));
        assert(faces.skip(dice.len() as int) == rest.skip(second.len() as int));
    }
}

/// The dice that a source gave are the ones that its books gained.
pub proof fn lemma_gave_is_between(before: Supply, dice: Seq<u8>, after: Supply)
    requires
        gave(before, dice, after),
    ensures
        dice_between(before, after) == dice,
{
}

/// A draw takes the first face of a script that has one, and fails on a
/// script that has none. From a source without a script it always gets a die.
pub proof fn lemma_draw_follows_script(before: Supply, face: Option<u8>, after: Supply)
    requires
        drew(before, face, after),
    ensures
        match before.script {
            Some(faces) => if faces.len() > 0 {
                face == Some(faces[0]) && after.script == Some(faces.skip(1))
            } else {
                face is None && after == before
            },
            None => face is Some && after.script is None,
        },
{
    if let Some(die) = face {
        if let Some(faces) = before.script {
            assert(faces.take(1)[0] == faces[0]);
        }
    }
}

/// `rand::rngs::ThreadRng`, the handle to the thread's random number
/// generator, made known so that it can stand in signatures. Nothing is
/// claimed of what it holds.
#[verifier::external_type_specification]
#[verifier::external_body]
pub struct ExThreadRng(ThreadRng);

/// `rand::thread_rng` hands out the handle to the thread's generator. Nothing
/// is claimed of the handle. The call panics if the generator has to be set
/// up and the operating system gives it no seed.
pub assume_specification[ rand::thread_rng ]() -> (rng: ThreadRng);

/// Calls `rand::Rng::gen_range` on the half-open range `low..high`.
///
/// Trusted: the value returned lies in that range, `low` included and `high`
/// excluded. `gen_range` panics on an empty range, which `requires` rules out.
/// It also panics when the generator has to reseed itself and the operating
/// system gives it no entropy; no argument decides that.
#[verifier::external_body]
fn sample_between(rng: &mut ThreadRng, low: u8, high: u8) -> (value: u8)
    requires
        low < high,
    ensures
        low <= value < high,
{
    rng.gen_range(low..high)
}

/// Dice thrown by the thread's random number generator. They never run dry.
pub struct ThreadDice {
    rng: ThreadRng,
    given: Ghost<Seq<u8>>,
}

impl ThreadDice {
    /// The faces given so far, the oldest first.
    pub closed spec fn given(&self) -> Seq<u8> {
        self.given@
    }

    /// Dice of the current thread's generator that have not been thrown yet.
    pub fn new() -> (dice: ThreadDice)
        ensures
            dice.given() == Seq::<u8>::empty(),
    {
        ThreadDice { rng: rand::thread_rng(), given: Ghost(Seq::empty()) }
    }
}

impl DieSource for ThreadDice {
    open spec fn supply(&self) -> Supply {
        Supply { given: self.given(), script: None }
    }

    fn draw(&mut self) -> (face: Option<u8>) {
        let face: u8 = sample_between(&mut self.rng, LOWEST_FACE, HIGHEST_FACE + 1);
        self.given = Ghost(self.given@.push(face));
        assert(self.given() == old(self).given() + seq![face]);
        Some(face)
    }
}

/// Dice whose faces were fixed in advance. Draws give them in order; when the
/// last has been given, draws fail.
#[derive(Debug)]
pub struct ScriptedDice {
    faces: Vec<u8>,
    next: usize,
}

impl ScriptedDice {
    #[verifier::type_invariant]
    spec fn well_formed(self) -> bool {
        &&& self.next <= self.faces.len()
        &&& all_faces(self.faces@)
    }

    /// The faces given so far, the oldest first.
    pub closed spec fn given(&self) -> Seq<u8> {
        self.faces@.take(self.next as int)
    }

    /// The faces still to come, the next one first.
    pub closed spec fn script(&self) -> Seq<u8> {
        self.faces@.skip(self.next as int)
    }

    /// Dice that will show `faces`, first to last. `None` if an element of
    /// `faces` is not a face of a six-sided die.
    pub fn new(faces: Vec<u8>) -> (dice: Option<ScriptedDice>)
        ensures
            dice is Some <==> all_faces(faces@),
            dice matches Some(dice) ==> dice.given() == Seq::<u8>::empty() && dice.script()
                == faces@,
    {
        if check_faces(&faces) {
            Some(ScriptedDice { faces, next: 0 })
        } else {
            None
        }
    }

    /// How many faces are still to come.
    pub fn remaining(&self) -> (count: usize)
        ensures
            count == self.script().len(),
    {
        proof {
            use_type_invariant(self);
        }
        self.faces.len() - self.next
    }
}

impl DieSource for ScriptedDice {
    open spec fn supply(&self) -> Supply {
        Supply { given: self.given(), script: Some(self.script()) }
    }

    fn draw(&mut self) -> (face: Option<u8>) {
        proof {
            use_type_invariant(&*self);
        }
        if self.next < self.faces.len() {
            let face: u8 = self.faces[self.next];
            self.next = self.next + 1;
            proof {
                let script = old(self).script();
                assert(script.take(1) == seq![face]);
                assert(self.script() == script.skip(1));
                assert(self.given() == old(self).given() + seq![face]);
            }
            Some(face)
        } else {
            assert(self.script() == Seq::<u8>::empty());
            None
        }
    }
}

} // verus!
