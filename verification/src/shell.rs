//! The interactive shell's decisions, kept apart from its input/output:
//! which menu choice names which chart, when the user asked to quit, and
//! which file names are acceptable.
use vstd::prelude::*;
use crate::text::ends_with_ci;
use crate::text::seq_eq_ci;
use crate::text::str_ends_with_ci;
use crate::text::str_eq;
use crate::text::str_eq_ci;

verus! {

/// The five chart kinds of the menu.
#[derive(Clone, Copy, PartialEq, Eq, Structural, Debug)]
pub enum ChartKind {
    Bar,
    Scatter,
    Pie,
    LineArea,
    Radar,
}

/// The chart a menu answer names, if any.
pub open spec fn choice_spec(s: Seq<char>) -> Option<ChartKind> {
    if s == "1"@ {
        Some(ChartKind::Bar)
    } else if s == "2"@ {
        Some(ChartKind::Scatter)
    } else if s == "3"@ {
        Some(ChartKind::Pie)
    } else if s == "4"@ {
        Some(ChartKind::LineArea)
    } else if s == "5"@ {
        Some(ChartKind::Radar)
    } else {
        None
    }
}

/// Reads a menu answer: the digits 1 to 5 name the charts, anything else
/// is invalid and asks for a new prompt.
pub fn parse_choice(s: &str) -> (r: Option<ChartKind>)
    ensures
        r == choice_spec(s@),
{
    if str_eq(s, "1") {
        Some(ChartKind::Bar)
    } else if str_eq(s, "2") {
        Some(ChartKind::Scatter)
    } else if str_eq(s, "3") {
        Some(ChartKind::Pie)
    } else if str_eq(s, "4") {
        Some(ChartKind::LineArea)
    } else if str_eq(s, "5") {
        Some(ChartKind::Radar)
    } else {
        None
    }
}

/// The inputs that end the program at any prompt.
pub open spec fn is_quit_spec(s: Seq<char>) -> bool {
    s == "q"@ || s == "quit"@
}

/// True when the answer asks to quit.
pub fn is_quit(s: &str) -> (r: bool)
    ensures
        r == is_quit_spec(s@),
{
    str_eq(s, "q") || str_eq(s, "quit")
}

/// The fixed canvas dimensions of each chart kind, in pixels.
pub fn canvas_size(kind: ChartKind) -> (r: (u32, u32))
    ensures
        kind is Bar ==> r == (640u32, 480u32),
        kind is Scatter ==> r == (600u32, 400u32),
        kind is Pie ==> r == (350u32, 350u32),
        kind is LineArea ==> r == (600u32, 400u32),
        kind is Radar ==> r == (800u32, 800u32),
{
    match kind {
        ChartKind::Bar => (640, 480),
        ChartKind::Scatter => (600, 400),
        ChartKind::Pie => (350, 350),
        ChartKind::LineArea => (600, 400),
        ChartKind::Radar => (800, 800),
    }
}

/// A file name is acceptable when it carries the wanted suffix and is not
/// the reserved word `repeat`, both compared without regard to ASCII case.
pub open spec fn filename_acceptable(name: Seq<char>, ext: Seq<char>) -> bool {
    ends_with_ci(name, ext) && !seq_eq_ci(name, "repeat"@)
}

/// Decides an input file name.
pub fn valid_input_filename(name: &str, ext: &str) -> (r: bool)
    ensures
        r == filename_acceptable(name@, ext@),
{
    str_ends_with_ci(name, ext) && !str_eq_ci(name, "repeat")
}

/// Decides an output file name: a name whose file already exists on disk
/// is never accepted, so nothing is ever overwritten; otherwise the same
/// rule as for input names.
pub fn accept_output_filename(name: &str, ext: &str, already_exists: bool) -> (r: bool)
    ensures
        r == (!already_exists && filename_acceptable(name@, ext@)),
{
    !already_exists && str_ends_with_ci(name, ext) && !str_eq_ci(name, "repeat")
}

} // verus!
