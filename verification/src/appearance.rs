//! How an entity or a tile is shown: a character and a colour of the palette.

use vstd::prelude::*;

verus! {

/// The colours that the simulation hands to a renderer.
#[derive(Copy, Clone, Debug, PartialEq, Eq, Structural)]
pub enum Color {
    Black,
    White,
    Grey,
    LightGrey,
    LightestGrey,
    DarkerGrey,
    DarkestGrey,
    DarkGreen,
    Green,
    LightGreen,
    LightOrange,
    Orange,
    LightRed,
    Yellow,
    Gold,
    Blue,
    Purple,
}

/// Marks an entity drawn below the characters: items and fixtures.
#[derive(Copy, Clone, Debug, PartialEq, Eq, Structural)]
pub struct Layer0;

/// Marks an entity drawn on top: players and other characters.
#[derive(Copy, Clone, Debug, PartialEq, Eq, Structural)]
pub struct Layer1;

/// The character and colour by which an entity is drawn.
#[derive(Copy, Clone, Debug, PartialEq, Eq, Structural)]
pub struct Renderable {
    pub character: char,
    pub color: Color,
}

impl Renderable {
    pub fn new(character: char, color: Color) -> (r: Renderable)
        ensures
            r == (Renderable { character, color }),
    {
        Renderable { character, color }
    }
}

} // verus!
