//! Character classification: pure glyph-class predicates consulted by the
//! line and decoration finders.
//!
//! Each predicate has a spec-level twin so that contracts elsewhere can speak
//! about glyph classes directly.

use vstd::prelude::*;

verus! {

/// Glyphs drawing a solid horizontal stroke; a plus joins runs of every
/// weight.
pub open spec fn spec_is_solid_h_line(c: char) -> bool {
    c == '-' || c == '+'
}

/// Glyphs drawing a solid vertical stroke; a plus joins runs of every
/// weight.
pub open spec fn spec_is_solid_v_line(c: char) -> bool {
    c == '|' || c == '+'
}

/// Glyphs drawing a double-weight vertical stroke.
pub open spec fn spec_is_double_v_line(c: char) -> bool {
    c == '\u{2551}' || c == '+'
}

/// Glyphs drawing a double-weight horizontal stroke.
pub open spec fn spec_is_double_h_line(c: char) -> bool {
    c == '=' || c == '+' || c == '(' || c == ')'
}

/// Glyphs drawing a wavy (squiggle) horizontal stroke.
pub open spec fn spec_is_squiggle_h_line(c: char) -> bool {
    c == '~' || c == '+'
}

/// Glyphs drawing a back-diagonal stroke (upper-left to lower-right).
pub open spec fn spec_is_solid_b_line(c: char) -> bool {
    c == '\\' || c == '\u{2572}'
}

/// Glyphs drawing a forward-diagonal stroke (lower-left to upper-right).
pub open spec fn spec_is_solid_d_line(c: char) -> bool {
    c == '/' || c == '\u{2571}'
}

/// Vertices that can cap the top of a vertical run or open a curved corner.
pub open spec fn spec_is_top_vertex(c: char) -> bool {
    c == '.' || c == ','
}

/// Vertices that can cap the bottom of a vertical run or close a curved
/// corner.
pub open spec fn spec_is_bottom_vertex(c: char) -> bool {
    c == '\'' || c == '`'
}

/// Any corner/junction glyph.
pub open spec fn spec_is_vertex(c: char) -> bool {
    spec_is_top_vertex(c) || spec_is_bottom_vertex(c) || c == '+'
}

/// Point-marker glyphs.
pub open spec fn spec_is_point(c: char) -> bool {
    c == '*' || c == 'o' || c == '\u{25cb}' || c == '\u{25cc}' || c == '\u{25cd}' || c
        == '\u{25cf}' || c == '\u{2295}'
}

/// Jump-bridge glyphs: a crossing line hops over through these.
pub open spec fn spec_is_jump(c: char) -> bool {
    c == '(' || c == ')'
}

/// A top vertex or an upward arrowhead: both can sit on top of a vertical
/// run.
pub open spec fn spec_is_top_vertex_or_decoration(c: char) -> bool {
    spec_is_top_vertex(c) || c == '^'
}

/// A vertex, a left arrowhead, or a point: all can close a horizontal run on
/// its left.
pub open spec fn spec_is_vertex_or_left_decoration(c: char) -> bool {
    spec_is_vertex(c) || c == '<' || spec_is_point(c)
}

/// A vertex, a right arrowhead, or a point: all can close a horizontal run on
/// its right.
pub open spec fn spec_is_vertex_or_right_decoration(c: char) -> bool {
    spec_is_vertex(c) || c == '>' || spec_is_point(c)
}

/// Shading glyphs that fill their whole cell with a gray level.
pub open spec fn spec_is_gray(c: char) -> bool {
    c == '\u{2591}' || c == '\u{2592}' || c == '\u{2593}' || c == '\u{2588}'
}

/// Gray intensity (an RGB channel value) for a shading glyph.
pub open spec fn spec_gray_level(c: char) -> u8 {
    if c == '\u{2591}' {
        192
    } else if c == '\u{2592}' {
        128
    } else if c == '\u{2593}' {
        64
    } else {
        0
    }
}

/// Solid triangle glyphs.
pub open spec fn spec_is_tri(c: char) -> bool {
    c == '\u{25b6}' || c == '\u{25bc}' || c == '\u{25c0}' || c == '\u{25b2}'
}

/// Rotation for a triangle glyph, in hundred-thousandths of a degree,
/// measured clockwise from a right-pointing triangle.
pub open spec fn spec_tri_angle(c: char) -> i64 {
    if c == '\u{25b6}' {
        0
    } else if c == '\u{25bc}' {
        9000000
    } else if c == '\u{25c0}' {
        18000000
    } else {
        27000000
    }
}

/// ASCII letters; an underscore between two of them is identifier text, not a
/// line.
pub open spec fn spec_is_ascii_letter(c: char) -> bool {
    ('a' <= c && c <= 'z') || ('A' <= c && c <= 'Z')
}

/// ASCII letters and digits.
pub open spec fn spec_is_ascii_alphanumeric(c: char) -> bool {
    spec_is_ascii_letter(c) || ('0' <= c && c <= '9')
}

pub fn is_solid_h_line(c: char) -> (r: bool)
    ensures
        r == spec_is_solid_h_line(c),
{
    c == '-' || c == '+'
}

pub fn is_solid_v_line(c: char) -> (r: bool)
    ensures
        r == spec_is_solid_v_line(c),
{
    c == '|' || c == '+'
}

pub fn is_double_v_line(c: char) -> (r: bool)
    ensures
        r == spec_is_double_v_line(c),
{
    c == '\u{2551}' || c == '+'
}

pub fn is_double_h_line(c: char) -> (r: bool)
    ensures
        r == spec_is_double_h_line(c),
{
    c == '=' || c == '+' || c == '(' || c == ')'
}

pub fn is_squiggle_h_line(c: char) -> (r: bool)
    ensures
        r == spec_is_squiggle_h_line(c),
{
    c == '~' || c == '+'
}

pub fn is_solid_b_line(c: char) -> (r: bool)
    ensures
        r == spec_is_solid_b_line(c),
{
    c == '\\' || c == '\u{2572}'
}

pub fn is_solid_d_line(c: char) -> (r: bool)
    ensures
        r == spec_is_solid_d_line(c),
{
    c == '/' || c == '\u{2571}'
}

pub fn is_top_vertex(c: char) -> (r: bool)
    ensures
        r == spec_is_top_vertex(c),
{
    c == '.' || c == ','
}

pub fn is_bottom_vertex(c: char) -> (r: bool)
    ensures
        r == spec_is_bottom_vertex(c),
{
    c == '\'' || c == '`'
}

pub fn is_vertex(c: char) -> (r: bool)
    ensures
        r == spec_is_vertex(c),
{
    is_top_vertex(c) || is_bottom_vertex(c) || c == '+'
}

pub fn is_point(c: char) -> (r: bool)
    ensures
        r == spec_is_point(c),
{
    c == '*' || c == 'o' || c == '\u{25cb}' || c == '\u{25cc}' || c == '\u{25cd}' || c
        == '\u{25cf}' || c == '\u{2295}'
}

pub fn is_jump(c: char) -> (r: bool)
    ensures
        r == spec_is_jump(c),
{
    c == '(' || c == ')'
}

pub fn is_top_vertex_or_decoration(c: char) -> (r: bool)
    ensures
        r == spec_is_top_vertex_or_decoration(c),
{
    is_top_vertex(c) || c == '^'
}

pub fn is_vertex_or_left_decoration(c: char) -> (r: bool)
    ensures
        r == spec_is_vertex_or_left_decoration(c),
{
    is_vertex(c) || c == '<' || is_point(c)
}

pub fn is_vertex_or_right_decoration(c: char) -> (r: bool)
    ensures
        r == spec_is_vertex_or_right_decoration(c),
{
    is_vertex(c) || c == '>' || is_point(c)
}

pub fn is_gray(c: char) -> (r: bool)
    ensures
        r == spec_is_gray(c),
{
    c == '\u{2591}' || c == '\u{2592}' || c == '\u{2593}' || c == '\u{2588}'
}

pub fn gray_level(c: char) -> (r: u8)
    ensures
        r == spec_gray_level(c),
{
    if c == '\u{2591}' {
        192
    } else if c == '\u{2592}' {
        128
    } else if c == '\u{2593}' {
        64
    } else {
        0
    }
}

pub fn is_tri(c: char) -> (r: bool)
    ensures
        r == spec_is_tri(c),
{
    c == '\u{25b6}' || c == '\u{25bc}' || c == '\u{25c0}' || c == '\u{25b2}'
}

pub fn tri_angle(c: char) -> (r: i64)
    ensures
        r == spec_tri_angle(c),
{
    if c == '\u{25b6}' {
        0
    } else if c == '\u{25bc}' {
        9000000
    } else if c == '\u{25c0}' {
        18000000
    } else {
        27000000
    }
}

pub fn is_ascii_letter(c: char) -> (r: bool)
    ensures
        r == spec_is_ascii_letter(c),
{
    ('a' <= c && c <= 'z') || ('A' <= c && c <= 'Z')
}

pub fn is_ascii_alphanumeric(c: char) -> (r: bool)
    ensures
        r == spec_is_ascii_alphanumeric(c),
{
    is_ascii_letter(c) || ('0' <= c && c <= '9')
}

} // verus!
