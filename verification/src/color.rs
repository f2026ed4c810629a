//! Pixel colours and the fixed palette by which the game shows its state.

use vstd::prelude::*;
use crate::process::ProcessState;

verus! {

/// An RGBA colour, one byte per channel.
#[derive(Debug, PartialEq, Eq, Structural, Clone, Copy)]
pub struct Color {
    pub r: u8,
    pub g: u8,
    pub b: u8,
    pub a: u8,
}

/// The opaque colour with the given red, green and blue parts.
pub open spec fn opaque(r: u8, g: u8, b: u8) -> Color {
    Color { r, g, b, a: 255 }
}

/// The colour in which the game paints a process in the given state.
pub open spec fn process_color(state: ProcessState) -> Color {
    match state {
        ProcessState::NeedRam => opaque(0, 0, 255),
        ProcessState::Dying => opaque(80, 0, 0),
        ProcessState::Crying => opaque(139, 0, 0),
        ProcessState::Angry => opaque(255, 0, 0),
        ProcessState::Annoyed => opaque(255, 165, 0),
        ProcessState::Satisfied => opaque(255, 255, 0),
        ProcessState::Happy => opaque(0, 255, 0),
        ProcessState::Finished => opaque(176, 216, 230),
        ProcessState::Waiting => opaque(155, 155, 154),
    }
}

/// What a process cell of the given colour shows: the state whose palette
/// colour it is, or nothing where no state has that colour.
pub open spec fn process_shown(color: Color) -> Option<ProcessState> {
    if color == process_color(ProcessState::NeedRam) {
        Some(ProcessState::NeedRam)
    } else if color == process_color(ProcessState::Dying) {
        Some(ProcessState::Dying)
    } else if color == process_color(ProcessState::Crying) {
        Some(ProcessState::Crying)
    } else if color == process_color(ProcessState::Angry) {
        Some(ProcessState::Angry)
    } else if color == process_color(ProcessState::Annoyed) {
        Some(ProcessState::Annoyed)
    } else if color == process_color(ProcessState::Satisfied) {
        Some(ProcessState::Satisfied)
    } else if color == process_color(ProcessState::Happy) {
        Some(ProcessState::Happy)
    } else if color == process_color(ProcessState::Finished) {
        Some(ProcessState::Finished)
    } else if color == process_color(ProcessState::Waiting) {
        Some(ProcessState::Waiting)
    } else {
        None
    }
}

/// The colour of a page that no process needs.
pub open spec fn page_unused_color() -> Color {
    opaque(99, 102, 106)
}

/// The two colours of a page that a process needs.
pub open spec fn page_needed_color(variant: bool) -> Color {
    if variant {
        opaque(0, 0, 255)
    } else {
        opaque(255, 255, 255)
    }
}

/// What a page cell of the given colour shows: whether the page is needed, or
/// nothing where the colour is none of the three page colours.
pub open spec fn page_shown(color: Color) -> Option<bool> {
    if color == page_unused_color() {
        Some(false)
    } else if color == page_needed_color(false) || color == page_needed_color(true) {
        Some(true)
    } else {
        None
    }
}

/// No two states share a palette colour.
pub proof fn lemma_process_colors_distinct(s: ProcessState, t: ProcessState)
    ensures
        process_color(s) == process_color(t) <==> s == t,
{
}

/// A colour shows a state exactly when it is that state's palette colour, so
/// every colour shows at most one state, and shows none exactly when it is
/// no state's colour.
pub proof fn lemma_process_shown_iff(color: Color)
    ensures
        forall|s: ProcessState|
            process_shown(color) == Some(s) <==> color == #[trigger] process_color(s),
        process_shown(color).is_none() <==> forall|s: ProcessState|
            color != #[trigger] process_color(s),
{
    assert forall|s: ProcessState| process_shown(color) == Some(s) <==> color
        == #[trigger] process_color(s) by {
        lemma_process_colors_distinct(s, ProcessState::NeedRam);
    }
    match process_shown(color) {
        Some(s) => {
            assert(color == process_color(s));
        },
        None => {},
    }
}

/// The colour that marks a needed page differs from that of an unused one, so
/// every colour shows at most one page state.
pub proof fn lemma_page_shown_iff(color: Color, needed: bool)
    ensures
        page_shown(color) == Some(needed) <==> if needed {
            color == page_needed_color(false) || color == page_needed_color(true)
        } else {
            color == page_unused_color()
        },
{
}

/// Reads a process state off the colour of a process cell.
pub fn classify_process(color: Color) -> (r: Option<ProcessState>)
    ensures
        r == process_shown(color),
{
    if color.a != 255 {
        None
    } else if color.r == 155 && color.g == 155 && color.b == 154 {
        Some(ProcessState::Waiting)
    } else if color.r == 176 && color.g == 216 && color.b == 230 {
        Some(ProcessState::Finished)
    } else if color.r == 0 && color.g == 255 && color.b == 0 {
        Some(ProcessState::Happy)
    } else if color.r == 255 && color.g == 255 && color.b == 0 {
        Some(ProcessState::Satisfied)
    } else if color.r == 255 && color.g == 165 && color.b == 0 {
        Some(ProcessState::Annoyed)
    } else if color.r == 255 && color.g == 0 && color.b == 0 {
        Some(ProcessState::Angry)
    } else if color.r == 139 && color.g == 0 && color.b == 0 {
        Some(ProcessState::Crying)
    } else if color.r == 80 && color.g == 0 && color.b == 0 {
        Some(ProcessState::Dying)
    } else if color.r == 0 && color.g == 0 && color.b == 255 {
        Some(ProcessState::NeedRam)
    } else {
        None
    }
}

/// Reads off the colour of a page cell whether the page is needed.
pub fn classify_page(color: Color) -> (r: Option<bool>)
    ensures
        r == page_shown(color),
{
    if color.a != 255 {
        None
    } else if color.r == 99 && color.g == 102 && color.b == 106 {
        Some(false)
    } else if (color.r == 255 && color.g == 255 && color.b == 255) || (color.r == 0 && color.g
        == 0 && color.b == 255) {
        Some(true)
    } else {
        None
    }
}

} // verus!
