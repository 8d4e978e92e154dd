use vstd::prelude::*;

verus! {

/// The semantic color of a token.  The rendering logic only decides a
/// class; the ANSI escape codes are applied at the output boundary.
#[derive(Clone, Copy, PartialEq, Eq, Structural, Debug)]
pub enum ColorClass {
    /// Green: a healthy outcome.
    Success,
    /// Yellow: legacy or redirect-like, worth a look.
    Warning,
    /// Red: an error.
    Alert,
    /// Cyan: infrastructure detail.
    Accent,
    /// No styling at all.
    Neutral,
}

/// The ANSI prefix a class paints with; `Neutral` paints with nothing.
pub open spec fn color_prefix(c: ColorClass) -> Seq<char> {
    match c {
        ColorClass::Success => "\u{1b}[32m"@,
        ColorClass::Warning => "\u{1b}[33m"@,
        ColorClass::Alert => "\u{1b}[31m"@,
        ColorClass::Accent => "\u{1b}[36m"@,
        ColorClass::Neutral => Seq::empty(),
    }
}

/// The ANSI reset that closes every non-neutral class.
pub open spec fn color_suffix(c: ColorClass) -> Seq<char> {
    match c {
        ColorClass::Neutral => Seq::empty(),
        _ => "\u{1b}[0m"@,
    }
}

/// Text wrapped in the escape codes of its class.
pub open spec fn painted(c: ColorClass, text: Seq<char>) -> Seq<char> {
    color_prefix(c) + text + color_suffix(c)
}

/// Relies on ansi_term::Colour::Green.paint (ansi_term 0.12): a style
/// that only sets a foreground colour renders as the `ESC [ 3x m`
/// prefix, the text, and the `ESC [ 0 m` reset.
#[verifier::external_body]
fn paint_green(s: &str) -> (r: String)
    ensures
        r@ == "\u{1b}[32m"@ + s@ + "\u{1b}[0m"@,
{
    ansi_term::Colour::Green.paint(s).to_string()
}

/// Relies on ansi_term::Colour::Yellow.paint: as `paint_green`, with
/// the yellow foreground code.
#[verifier::external_body]
fn paint_yellow(s: &str) -> (r: String)
    ensures
        r@ == "\u{1b}[33m"@ + s@ + "\u{1b}[0m"@,
{
    ansi_term::Colour::Yellow.paint(s).to_string()
}

/// Relies on ansi_term::Colour::Red.paint: as `paint_green`, with the
/// red foreground code.
#[verifier::external_body]
fn paint_red(s: &str) -> (r: String)
    ensures
        r@ == "\u{1b}[31m"@ + s@ + "\u{1b}[0m"@,
{
    ansi_term::Colour::Red.paint(s).to_string()
}

/// Relies on ansi_term::Colour::Cyan.paint: as `paint_green`, with the
/// cyan foreground code.
#[verifier::external_body]
fn paint_cyan(s: &str) -> (r: String)
    ensures
        r@ == "\u{1b}[36m"@ + s@ + "\u{1b}[0m"@,
{
    ansi_term::Colour::Cyan.paint(s).to_string()
}

/// Wraps `s` in the escape codes of its class; neutral text passes
/// through unchanged, exactly as ansi_term's plain style leaves it.
pub fn paint(c: ColorClass, s: &str) -> (r: String)
    ensures
        r@ == painted(c, s@),
{
    match c {
        ColorClass::Success => {
            let r = paint_green(s);
            proof {
                assert(r@ =~= painted(ColorClass::Success, s@));
            }
            r
        },
        ColorClass::Warning => {
            let r = paint_yellow(s);
            proof {
                assert(r@ =~= painted(ColorClass::Warning, s@));
            }
            r
        },
        ColorClass::Alert => {
            let r = paint_red(s);
            proof {
                assert(r@ =~= painted(ColorClass::Alert, s@));
            }
            r
        },
        ColorClass::Accent => {
            let r = paint_cyan(s);
            proof {
                assert(r@ =~= painted(ColorClass::Accent, s@));
            }
            r
        },
        ColorClass::Neutral => {
            let r = String::from_str(s);
            proof {
                assert(r@ =~= painted(ColorClass::Neutral, s@));
            }
            r
        },
    }
}

} // verus!
