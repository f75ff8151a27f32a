//! The character gallery: a fixed mapping from a mascot name to a static
//! piece of ASCII art. Unknown names fall back to the default character,
//! so the lookup is total and never fails.

use vstd::prelude::*;
use vstd::string::*;

use crate::text::str_eq;

verus! {

/// The art of the default character, a crab.
pub open spec fn ferris_art() -> Seq<char> {
    "\n            _~^~^~_\n        \\) / o o \\ (/\n          '_ - _'\n          / '-----' \\\n"@
}

/// The art of the cow.
pub open spec fn cow_art() -> Seq<char> {
    "\n        ^__^\n        (oo)\\_______\n        (__)\\       )\\/\\\n            ||----w |\n            ||     ||\n    "@
}

/// The art of the dragon.
pub open spec fn dragon_art() -> Seq<char> {
    "               / \\  //\\\n               |\\___/|      /   \\//  \\\\\n               /0  0  \\__  /    //  | \\ \\    \n              /     /  \\/_/    //   |  \\  \\  \n              @_^_@'/   \\/_   //    |   \\   \\ \n              //_^_/     \\/_ //     |    \\    \\\n           ( //) |        \\///      |     \\     \\\n         ( / /) _|_ /   )  //       |      \\     _\\\n       ( // /) '/,_ _ _/  ( ; -.    |    _ _\\.-~        .-~~~^-.\n     (( / / )) ,-{        _      `-.|.-~-.           .~         `.\n    (( // / ))  '/\\      /                 ~-. _ .-~      .-~^-.  \\\n    (( /// ))      `.   {            }                   /      \\  \\\n     (( / ))     .----~-.\\        \\-'                 .~         \\  `. \\^-.\n                 ///.----..>        \\             _ -~             `.  ^-`  ^-_\n                   ///-._ _ _ _ _ _ _}^ - - - - ~                     ~-- ,.-~\n"@
}

/// The art of the bunny.
pub open spec fn bunny_art() -> Seq<char> {
    "\n        (\\(\\ \n        ( -.-) \n        o_(\")(\")\n    "@
}

/// The default character's art.
pub fn ferris() -> (r: String)
    ensures
        r@ == ferris_art(),
{
    String::from_str(
        "\n            _~^~^~_\n        \\) / o o \\ (/\n          '_ - _'\n          / '-----' \\\n",
    )
}

/// The cow's art.
pub fn cow() -> (r: String)
    ensures
        r@ == cow_art(),
{
    String::from_str(
        "\n        ^__^\n        (oo)\\_______\n        (__)\\       )\\/\\\n            ||----w |\n            ||     ||\n    ",
    )
}

/// The dragon's art.
pub fn dragon() -> (r: String)
    ensures
        r@ == dragon_art(),
{
    String::from_str(
        "               / \\  //\\\n               |\\___/|      /   \\//  \\\\\n               /0  0  \\__  /    //  | \\ \\    \n              /     /  \\/_/    //   |  \\  \\  \n              @_^_@'/   \\/_   //    |   \\   \\ \n              //_^_/     \\/_ //     |    \\    \\\n           ( //) |        \\///      |     \\     \\\n         ( / /) _|_ /   )  //       |      \\     _\\\n       ( // /) '/,_ _ _/  ( ; -.    |    _ _\\.-~        .-~~~^-.\n     (( / / )) ,-{        _      `-.|.-~-.           .~         `.\n    (( // / ))  '/\\      /                 ~-. _ .-~      .-~^-.  \\\n    (( /// ))      `.   {            }                   /      \\  \\\n     (( / ))     .----~-.\\        \\-'                 .~         \\  `. \\^-.\n                 ///.----..>        \\             _ -~             `.  ^-`  ^-_\n                   ///-._ _ _ _ _ _ _}^ - - - - ~                     ~-- ,.-~\n",
    )
}

/// The bunny's art.
pub fn bunny() -> (r: String)
    ensures
        r@ == bunny_art(),
{
    String::from_str("\n        (\\(\\ \n        ( -.-) \n        o_(\")(\")\n    ")
}

/// The art a name maps to: each supported character by its name, and the
/// default character's art for any other name.
pub open spec fn art_of(name: Seq<char>) -> Seq<char> {
    if name == "cow"@ {
        cow_art()
    } else if name == "dragon"@ {
        dragon_art()
    } else if name == "bunny"@ {
        bunny_art()
    } else {
        ferris_art()
    }
}

/// Looks up the art for a character name; an unrecognized name gives the
/// default character's art.
pub fn generate_character(character: &str) -> (r: String)
    ensures
        r@ == art_of(character@),
{
    if str_eq(character, "cow") {
        cow()
    } else if str_eq(character, "dragon") {
        dragon()
    } else if str_eq(character, "bunny") {
        bunny()
    } else {
        ferris()
    }
}

/// The lookup is total: every name outside the supported set maps to the
/// default character's art, so two unrecognized names (the empty name
/// included) always map to the same art as the default name itself.
pub proof fn lemma_lookup_total(name: Seq<char>)
    requires
        name != "cow"@,
        name != "dragon"@,
        name != "bunny"@,
    ensures
        art_of(name) == ferris_art(),
        art_of(name) == art_of("ferris"@),
{
    reveal_strlit("ferris");
    reveal_strlit("cow");
    reveal_strlit("dragon");
    reveal_strlit("bunny");
    assert("ferris"@.len() != "cow"@.len());
    assert("ferris"@[0] != "dragon"@[0]);
    assert("ferris"@.len() != "bunny"@.len());
}

} // verus!
