//! The built-in level layouts, the victory layout shown when the levels run
//! out, and the terminal layout shown on game over. Each layout is a list
//! of text rows read bottom-to-top by the grid builder: `W` is a static
//! wall, `T` a goal cell, anything else is free.

use vstd::prelude::*;

verus! {

/// The text rows of the level with the given index; past the last level the
/// victory layout is returned.
pub fn level_rows(index: usize) -> (rows: Vec<&'static str>)
    ensures
        rows@.len() == 14,
{
    if index == 0 {
        vec![
            "WWWWWWWWWWW WWWWWWWWWT",
            "WWWWWWWWWW   WWWWWWWW ",
            "WWWWWWWWW             ",
            "WWWWWWWWWW   WWWWWWWW ",
            "WWWWWWWWWWW WWWWWWWWW ",
            "WWWWWWWWWWW WWWWWWWW  ",
            "                      ",
            "  WWWWWWWWW WWWWWWWWWW",
            " WWWWWWWWWW WWWWWWWWWW",
            " WWWWWWWWW  WWWWWWWWWW",
            "            WWWWWWWWWW",
            " WWWWWWWWW  WWWWWWWWWW",
            " WWWWWWWWWW WWWWWWWWWW",
            "SWWWWWWWWWWWWWWWWWWWWW",
        ]
    } else if index == 1 {
        vec![
            "          WWWW       T",
            "   WWWW   WWWW        ",
            "   WWWW   WWWW        ",
            "   WWWW   WWWW        ",
            "   WWWW   WWWW        ",
            "   WWWW   WWWW   WWWWW",
            "   WWWW   WWWW   WWWWW",
            "   WWWW   WWWW   WWWWW",
            "   WWWW   WWWW   WWWWW",
            "   WWWW   WWWW   WWWWW",
            "   WWWW          WWWWW",
            "   WWWW          WWWWW",
            "   WWWW          WWWWW",
            "s WWWWW          WWWWW",
        ]
    } else if index == 2 {
        vec![
            "                      ",
            " WWWWWWWWWW WWWWWWWWW ",
            " WWWWWWWWWW WWWWWWWWW ",
            " WWWWWWWWWW WWWWWWWWW ",
            " WWWWWWWWWW WWWWWWWWW ",
            " WWWWWWWWW W WWWWWWWW ",
            "                      ",
            " WWWWWWWWW T WWWWWWWW ",
            " WWWWWWWWWW WWWWWWWWW ",
            " WWWWWWWWWW WWWWWWWWW ",
            " WWWWWWWWWW WWWWWWWWW ",
            " WWWWWWWWWW WWWWWWWWW ",
            " WWWWWWWWWW WWWWWWWWW ",
            "S                     ",
        ]
    } else if index == 3 {
        vec![
            "          WW          ",
            "          WW          ",
            "         WTTW         ",
            "         W  W         ",
            "W    W   W  W   W    W",
            " TW  W  W    W  W  WT ",
            " W W W W  WW  W W W W ",
            " W  WW W W  W W WW  W ",
            "  W  WW  W  W  WW  W  ",
            "   W W    WW    W W   ",
            "    WW          WW    ",
            "     WWWWW  WWWWW     ",
            "        WW  WW        ",
            "S                     ",
        ]
    } else {
        vec![
            "                     T",
            "     W W  WWW  W W    ",
            "     W W  W W  W W    ",
            "     WWW  W W  W W    ",
            "      W   W W  W W    ",
            "      W   WWW  WWW    ",
            "                      ",
            "                      ",
            "    W   W WWW W   W   ",
            "    W   W W W WW  W   ",
            "    W   W W W W W W   ",
            "    W W W W W W  WW   ",
            "     W W  WWW W   W   ",
            "                      ",
        ]
    }
}

/// The fixed end-state layout that replaces the board when the game is
/// over.
pub fn game_over_rows() -> (rows: Vec<&'static str>)
    ensures
        rows@.len() == 14,
{
    vec![
        "                     ",
        "  WWW  WWW W   W WWW ",
        "  W    W W WW WW W   ",
        "  W WW WWW W W W WWW ",
        "  W  W W W W   W W   ",
        "  WWWW W W W   W WWW ",
        "                     ",
        "   WWW W  W WWW WWW  ",
        "   W W W  W W   W W  ",
        "   W W W  W WWW WWW  ",
        "   W W W  W W   WW   ",
        "   WWW  WW  WWW W W  ",
        "                     ",
        "                     ",
    ]
}

} // verus!
