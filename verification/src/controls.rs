//! Which body the overlay follows, and which colour a body is drawn in.

use vstd::prelude::*;

verus! {

/// The number of colours in the palette that bodies are drawn from.
pub const PALETTE_SIZE: usize = 6;

/// The body that the overlay and the camera follow.
#[derive(Clone, Copy, Debug, PartialEq, Eq, Structural)]
pub enum ViewingBody {
    Moon(usize),
    Satellite(usize),
    Nothing,
}

impl Default for ViewingBody {
    fn default() -> (body: Self)
        ensures
            body == ViewingBody::Nothing,
    {
        ViewingBody::Nothing
    }
}

/// The state of the overlay's controls.
#[derive(Clone, Copy, Debug, PartialEq, Eq, Structural)]
pub struct OverylayUiControls {
    pub viewing_body: ViewingBody,
}

impl Default for OverylayUiControls {
    fn default() -> (controls: Self)
        ensures
            controls.viewing_body == ViewingBody::Nothing,
    {
        OverylayUiControls { viewing_body: ViewingBody::Nothing }
    }
}

/// The body that follows `current` when the view is switched, in a scene
/// with the given numbers of moons and satellites.
///
/// The view moves up through the moons, from the last moon to the first
/// satellite, up through the satellites, and from the last satellite to no
/// body at all. From no body it moves to the first moon, or to the first
/// satellite where there is no moon, and stays where there is neither.
pub open spec fn body_after(current: ViewingBody, moons: int, satellites: int) -> ViewingBody {
    match current {
        ViewingBody::Moon(i) => if i + 1 == moons {
            ViewingBody::Satellite(0)
        } else {
            ViewingBody::Moon((i + 1) as usize)
        },
        ViewingBody::Satellite(i) => if i + 1 == satellites {
            ViewingBody::Nothing
        } else {
            ViewingBody::Satellite((i + 1) as usize)
        },
        ViewingBody::Nothing => if 0 < moons {
            ViewingBody::Moon(0)
        } else if 0 < satellites {
            ViewingBody::Satellite(0)
        } else {
            ViewingBody::Nothing
        },
    }
}

/// Whether `body` names a body of a scene with the given numbers of moons
/// and satellites, or none.
pub open spec fn is_in_scene(body: ViewingBody, moons: int, satellites: int) -> bool {
    match body {
        ViewingBody::Moon(i) => i < moons,
        ViewingBody::Satellite(i) => i < satellites,
        ViewingBody::Nothing => true,
    }
}

/// The place of `body` in the round that the view makes: no body first, then
/// the moons, then the satellites.
pub open spec fn place_in_round(body: ViewingBody, moons: int) -> int {
    match body {
        ViewingBody::Nothing => 0,
        ViewingBody::Moon(i) => 1 + i,
        ViewingBody::Satellite(i) => 1 + moons + i,
    }
}

/// Whether the number of `current` can be raised by one: the view cannot be
/// switched from a body whose number is the largest there is.
pub open spec fn can_advance(current: ViewingBody) -> bool {
    match current {
        ViewingBody::Moon(i) => i < usize::MAX,
        ViewingBody::Satellite(i) => i < usize::MAX,
        ViewingBody::Nothing => true,
    }
}

/// The body that follows `current` when the view is switched.
pub fn next_viewing_body(current: ViewingBody, moons: usize, satellites: usize) -> (next: ViewingBody)
    requires
        can_advance(current),
    ensures
        next == body_after(current, moons as int, satellites as int),
{
    match current {
        ViewingBody::Moon(i) => {
            if i + 1 == moons {
                ViewingBody::Satellite(0)
            } else {
                ViewingBody::Moon(i + 1)
            }
        },
        ViewingBody::Satellite(i) => {
            if i + 1 == satellites {
                ViewingBody::Nothing
            } else {
                ViewingBody::Satellite(i + 1)
            }
        },
        ViewingBody::Nothing => {
            if 0 < moons {
                ViewingBody::Moon(0)
            } else if 0 < satellites {
                ViewingBody::Satellite(0)
            } else {
                ViewingBody::Nothing
            }
        },
    }
}

impl OverylayUiControls {
    /// Switches the view to the next body.
    pub fn select_next(&mut self, moons: usize, satellites: usize)
        requires
            can_advance(old(self).viewing_body),
        ensures
            final(self).viewing_body == body_after(
                old(self).viewing_body,
                moons as int,
                satellites as int,
            ),
    {
        self.viewing_body = next_viewing_body(self.viewing_body, moons, satellites);
    }
}

/// In a scene that has a satellite, or no moon, switching the view from a
/// body of the scene leads to a body of the scene, one place further in the
/// round of `1 + moons + satellites` places.
pub proof fn lemma_view_makes_a_round(current: ViewingBody, moons: int, satellites: int)
    requires
        0 <= moons,
        0 <= satellites,
        moons + satellites <= usize::MAX,
        satellites > 0 || moons == 0,
        is_in_scene(current, moons, satellites),
    ensures
        is_in_scene(body_after(current, moons, satellites), moons, satellites),
        place_in_round(body_after(current, moons, satellites), moons) == (place_in_round(
            current,
            moons,
        ) + 1) % (1 + moons + satellites),
{
    let round = 1 + moons + satellites;
    let place = place_in_round(current, moons);
    assert(0 <= place < round);
    if place + 1 < round {
        assert((place + 1) % round == place + 1) by (nonlinear_arith)
            requires
                0 <= place + 1 < round,
        ;
    } else {
        assert((place + 1) % round == 0) by (nonlinear_arith)
            requires
                place + 1 == round,
                round > 0,
        ;
    }
}

/// The palette index of the moon with the given number.
pub fn moon_color_index(idx: usize) -> (color: usize)
    ensures
        color == idx % PALETTE_SIZE,
{
    idx % PALETTE_SIZE
}

/// The palette index of the satellite with the given number: satellites
/// start half way round the palette.
pub fn satellite_color_index(idx: usize) -> (color: usize)
    ensures
        color == (PALETTE_SIZE / 2 + idx) % (PALETTE_SIZE as int),
{
    (PALETTE_SIZE / 2 + idx % PALETTE_SIZE) % PALETTE_SIZE
}

} // verus!
