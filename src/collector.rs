use crate::shape::Shape;
use rand::rngs::SmallRng;
use rand::Rng;
use rand::SeedableRng;
use vstd::prelude::*;

verus! {

#[verifier::external_type_specification]
#[verifier::external_body]
pub struct ExSmallRng(SmallRng);

/// Relies on `SeedableRng::from_seed` for rand's `SmallRng`: a generator whose
/// state is built from the 16 seed bytes alone.
#[verifier::external_body]
fn seeded_rng(seed: [u8; 16]) -> (r: SmallRng) {
    SmallRng::from_seed(seed)
}

/// Relies on rand's `Rng::gen_range(1, 8)`: a value in `[1, 8)`, that is one
/// of the seven kind labels.
#[verifier::external_body]
fn draw_label(rng: &mut SmallRng) -> (r: u8)
    ensures
        1 <= r < 8,
{
    rng.gen_range(1u8, 8u8)
}

/// The seeded stream of piece kinds, with a one-piece lookahead.
pub struct PieceCollector {
    /// Label of the kind in play.
    pub current_shape: u8,
    /// Label of the kind that follows it.
    pub next_shape: u8,
    pub rng: SmallRng,
}

impl PieceCollector {
    /// Both lookahead slots hold a kind label.
    pub open spec fn wf(&self) -> bool {
        1 <= self.current_shape <= 7 && 1 <= self.next_shape <= 7
    }

    /// A stream seeded with `seed`; its first two kinds are drawn at once.
    pub fn new(seed: [u8; 16]) -> (r: PieceCollector)
        ensures
            r.wf(),
    {
        let mut rng = seeded_rng(seed);
        let current_shape = draw_label(&mut rng);
        let next_shape = draw_label(&mut rng);
        PieceCollector { current_shape, next_shape, rng }
    }

    /// The kind in play, in its spawn orientation.
    pub fn get_current(&self) -> (r: Shape)
        requires
            self.wf(),
        ensures
            r == Shape::of_label(self.current_shape),
            r.wf(),
    {
        Shape::from_index(self.current_shape).unwrap()
    }

    /// The kind that comes after the one in play, in its spawn orientation.
    pub fn get_next(&self) -> (r: Shape)
        requires
            self.wf(),
        ensures
            r == Shape::of_label(self.next_shape),
            r.wf(),
    {
        Shape::from_index(self.next_shape).unwrap()
    }

    /// Moves the stream on by one kind: the next kind comes into play and a
    /// fresh one is drawn behind it.
    pub fn next(&mut self)
        requires
            old(self).wf(),
        ensures
            final(self).wf(),
            final(self).current_shape == old(self).next_shape,
    {
        self.current_shape = self.next_shape;
        self.next_shape = draw_label(&mut self.rng);
    }
}

} // verus!
