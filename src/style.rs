//! Text styles of the terminal, as the renderer's style stack holds them.

use vstd::prelude::*;

verus! {

#[verifier::external_type_specification]
#[verifier::external_body]
pub struct ExColour(ansi_term::Colour);

#[verifier::external_type_specification]
pub struct ExStyle(ansi_term::Style);

/// Relies on ansi_term's `Style::new`: a style with no property set.
pub assume_specification[ ansi_term::Style::new ]() -> (r: ansi_term::Style)
    ensures
        r.foreground is None,
        r.background is None,
        !r.is_bold,
        !r.is_dimmed,
        !r.is_italic,
        !r.is_underline,
        !r.is_blink,
        !r.is_reverse,
        !r.is_hidden,
        !r.is_strikethrough,
;

/// Relies on ansi_term's `Style::italic`: the same style with the italic
/// property set.
pub assume_specification[ ansi_term::Style::italic ](s: &ansi_term::Style) -> (r: ansi_term::Style)
    ensures
        r == (ansi_term::Style { is_italic: true, ..*s }),
;

/// Relies on ansi_term's `Style::bold`: the same style with the bold property
/// set.
pub assume_specification[ ansi_term::Style::bold ](s: &ansi_term::Style) -> (r: ansi_term::Style)
    ensures
        r == (ansi_term::Style { is_bold: true, ..*s }),
;

} // verus!
