//! Colours, as the renderer receives them.

use vstd::prelude::*;

verus! {

/// A display colour with 8 bits per channel.
#[derive(Clone, Copy, Debug, PartialEq, Eq, Structural)]
pub struct Color {
    pub r: u8,
    pub g: u8,
    pub b: u8,
}

pub open spec fn red_spec() -> Color {
    Color { r: 255, g: 0, b: 0 }
}

pub open spec fn desaturated_green_spec() -> Color {
    Color { r: 63, g: 127, b: 63 }
}

pub open spec fn darker_green_spec() -> Color {
    Color { r: 0, g: 127, b: 0 }
}

pub open spec fn dark_wall_spec() -> Color {
    Color { r: 0, g: 0, b: 100 }
}

pub open spec fn light_wall_spec() -> Color {
    Color { r: 130, g: 110, b: 50 }
}

pub open spec fn dark_ground_spec() -> Color {
    Color { r: 50, g: 50, b: 150 }
}

pub open spec fn light_ground_spec() -> Color {
    Color { r: 200, g: 180, b: 50 }
}

/// The colour of the player's glyph.
#[verifier::when_used_as_spec(red_spec)]
pub fn red() -> (c: Color)
    ensures
        c == red_spec(),
{
    Color { r: 255, g: 0, b: 0 }
}

/// The colour of the weaker monster species.
#[verifier::when_used_as_spec(desaturated_green_spec)]
pub fn desaturated_green() -> (c: Color)
    ensures
        c == desaturated_green_spec(),
{
    Color { r: 63, g: 127, b: 63 }
}

/// The colour of the stronger monster species.
#[verifier::when_used_as_spec(darker_green_spec)]
pub fn darker_green() -> (c: Color)
    ensures
        c == darker_green_spec(),
{
    Color { r: 0, g: 127, b: 0 }
}

/// A wall that was seen before and is out of sight now.
#[verifier::when_used_as_spec(dark_wall_spec)]
pub fn dark_wall() -> (c: Color)
    ensures
        c == dark_wall_spec(),
{
    Color { r: 0, g: 0, b: 100 }
}

/// A wall in sight.
#[verifier::when_used_as_spec(light_wall_spec)]
pub fn light_wall() -> (c: Color)
    ensures
        c == light_wall_spec(),
{
    Color { r: 130, g: 110, b: 50 }
}

/// Floor that was seen before and is out of sight now.
#[verifier::when_used_as_spec(dark_ground_spec)]
pub fn dark_ground() -> (c: Color)
    ensures
        c == dark_ground_spec(),
{
    Color { r: 50, g: 50, b: 150 }
}

/// Floor in sight.
#[verifier::when_used_as_spec(light_ground_spec)]
pub fn light_ground() -> (c: Color)
    ensures
        c == light_ground_spec(),
{
    Color { r: 200, g: 180, b: 50 }
}

} // verus!
