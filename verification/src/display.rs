//! The escape sequences that style text on a terminal.

use vstd::prelude::*;

verus! {

/// The sequences that change the weight and shape of text.
pub struct Format {
    pub bold: &'static str,
    pub underline: &'static str,
    pub italic: &'static str,
}

/// The sequences that change the colour of text, and the one that ends any
/// styling.
pub struct Colors {
    pub green: &'static str,
    pub yellow: &'static str,
    pub red: &'static str,
    pub end: &'static str,
    pub light_green: &'static str,
}

/// The sequences for bold, underlined and italic text.
pub fn format() -> (f: Format)
    ensures
        f.bold@ == "\x1B[1m"@,
        f.underline@ == "\x1B[4m"@,
        f.italic@ == "\x1B[3m"@,
{
    Format { bold: "\x1B[1m", underline: "\x1B[4m", italic: "\x1B[3m" }
}

/// The sequences for the colours of log levels: bright green, bright
/// yellow, bright red and plain green, and the sequence that resets the
/// terminal.
pub fn colors() -> (c: Colors)
    ensures
        c.green@ == "\x1B[92m"@,
        c.yellow@ == "\x1B[93m"@,
        c.red@ == "\x1B[91m"@,
        c.end@ == "\x1B[0m"@,
        c.light_green@ == "\x1B[32m"@,
{
    Colors {
        green: "\x1B[92m",
        yellow: "\x1B[93m",
        red: "\x1B[91m",
        end: "\x1B[0m",
        light_green: "\x1B[32m",
    }
}

} // verus!
