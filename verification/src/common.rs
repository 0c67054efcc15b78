use crate::fixed::{div_trunc, sat, saturate};
use crate::vector::Vec2;
use vstd::prelude::*;

verus! {

/// Where a body is: the centre of its shape.
#[derive(Clone, Copy, Debug, PartialEq, Eq, Structural)]
pub struct Position {
    pub value: Vec2,
}

/// How far a body moves in one tick.
#[derive(Clone, Copy, Debug, PartialEq, Eq, Structural)]
pub struct Velocity {
    pub value: Vec2,
}

/// A rectangle with sides along the axes, given by two opposite corners.
#[derive(Clone, Copy, Debug, PartialEq, Eq, Structural)]
pub struct Rect {
    pub min: Vec2,
    pub max: Vec2,
}

/// The rectangle in which the bodies live: it is centred at the origin and
/// reaches `half_width` to either side and `half_height` up and down.
#[derive(Clone, Copy, Debug, PartialEq, Eq, Structural)]
pub struct Arena {
    pub half_width: i64,
    pub half_height: i64,
}

/// The rectangle of the given size centred at `centre`; a corner that would
/// leave the range of `i64` stops at its end.
pub open spec fn rect_around(centre: Vec2, width: int, height: int) -> Rect {
    Rect {
        min: Vec2 {
            x: sat(centre.x - div_trunc(width, 2)) as i64,
            y: sat(centre.y - div_trunc(height, 2)) as i64,
        },
        max: Vec2 {
            x: sat(centre.x + div_trunc(width, 2)) as i64,
            y: sat(centre.y + div_trunc(height, 2)) as i64,
        },
    }
}

/// The rectangle of the given size centred at `centre`.
pub fn centred_rect(centre: Vec2, width: i64, height: i64) -> (r: Rect)
    ensures
        r == rect_around(centre, width as int, height as int),
{
    let hw: i128 = (width / 2) as i128;
    let hh: i128 = (height / 2) as i128;
    Rect {
        min: Vec2 { x: saturate(centre.x as i128 - hw), y: saturate(centre.y as i128 - hh) },
        max: Vec2 { x: saturate(centre.x as i128 + hw), y: saturate(centre.y as i128 + hh) },
    }
}

impl Arena {
    /// Neither half-extent is negative.
    pub open spec fn wf(self) -> bool {
        0 <= self.half_width && 0 <= self.half_height
    }

    /// The arena that fills a viewport of the given size.
    pub fn from_viewport(width: u64, height: u64) -> (r: Arena)
        ensures
            r.half_width == width / 2,
            r.half_height == height / 2,
            r.wf(),
    {
        Arena { half_width: (width / 2) as i64, half_height: (height / 2) as i64 }
    }
}

} // verus!
