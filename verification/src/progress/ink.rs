//! The codes that color a terminal.

use crate::text;
use vstd::prelude::*;

verus! {

/// The code of bold text in one of the sixteen terminal colors: first the weight, then the color.
pub open spec fn bold_color(color: u8) -> Seq<char> {
    "\x1b[1m\x1b["@ + if color < 8 {
        "3"@ + text::model::decimal(color as nat)
    } else {
        "9"@ + text::model::decimal((color - 8) as nat)
    } + "m"@
}

/// `anstyle::Style` in bold with a foreground color, rendered: for color `c` the code of bold followed by
/// `ESC [ 3c m`, or for the bright half, `ESC [ 9(c-8) m`. A number past the sixteen colors has no code.
#[verifier::external_body]
fn bold(color: u8) -> (code: Option<String>)
    ensures
        match code {
            Some(code) => color < 16 && code@ == bold_color(color),
            None => color >= 16,
        },
{
    anstyle::Ansi256Color(color).into_ansi().map(
        |c| anstyle::Style::new().bold().fg_color(Some(c.into())).render().to_string(),
    )
}

/// `anstyle::Style` dimmed, rendered: `ESC [ 2 m`.
#[verifier::external_body]
pub(crate) fn dim() -> (code: String)
    ensures
        code@ == "\x1b[2m"@,
{
    anstyle::Style::new().dimmed().render().to_string()
}

/// The reset of any `anstyle::Style` that is not plain: `ESC [ 0 m`.
#[verifier::external_body]
pub(crate) fn reset() -> (code: String)
    ensures
        code@ == "\x1b[0m"@,
{
    anstyle::Style::new().dimmed().render_reset().to_string()
}

/// The code of bold text in one of the sixteen terminal colors.
pub(crate) fn paint(color: u8) -> (code: String)
    requires
        color < 16,
    ensures
        code@ == bold_color(color),
{
    match bold(color) {
        Some(code) => code,
        None => String::new(),
    }
}

} // verus!
