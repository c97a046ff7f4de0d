//! The outside `color_art::Color` type. Colors are opaque here: the
//! automata carry them from cell to cell and never look inside.
use vstd::prelude::*;
use color_art::Color;

verus! {

#[verifier::external_type_specification]
#[verifier::external_body]
pub struct ExColor(Color);

#[verifier::external_type_specification]
#[verifier::external_body]
pub struct ExColorError(color_art::Error);

/// The color that a name stands for in color_art's tables.
pub uninterp spec fn named_color(name: Seq<char>) -> Color;

/// Relies on color_art::Color::from_name: looks the name up in the W3C/X11
/// table (then a second table) and parses the hex code found there; "white"
/// (#ffffff), "black" (#000000) and "red" (#ff0000) are in the first table.
#[verifier::external_body]
pub(crate) fn color_from_name(name: &str) -> (r: Result<Color, color_art::Error>)
    ensures
        r is Ok ==> r->Ok_0 == named_color(name@),
        name@ == "white"@ || name@ == "black"@ || name@ == "red"@ ==> r is Ok,
{
    Color::from_name(name)
}

/// White for a live cell, black for a dead one.
pub fn bool_to_color(value: bool) -> (r: Color)
    ensures
        r == named_color(if value {
            "white"@
        } else {
            "black"@
        }),
{
    if value {
        color_from_name("white").unwrap()
    } else {
        color_from_name("black").unwrap()
    }
}

} // verus!
