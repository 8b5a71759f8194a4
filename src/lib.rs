//! Skill checks for a chat bot: reading commands, scraping a character
//! sheet's skill table, matching a typed skill name and rolling the die.
//! The request flow is a state machine; the program around the library
//! performs its actions.
use vstd::prelude::*;

pub mod character_sheet;
pub mod command;
pub mod orchestrator;
pub mod resolver;
pub mod text;

verus! {

/// Body of the health-check endpoint.
pub fn health() -> (r: &'static str)
    ensures
        r@ == "OK"@,
{
    "OK"
}

} // verus!
