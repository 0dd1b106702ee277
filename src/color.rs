use vstd::prelude::*;

verus! {

/// Terminal colours used to highlight the agent's surroundings.
#[derive(PartialEq, Eq, Structural, Copy, Clone, Hash, Debug)]
pub enum Color {
    Blue,
    Default,
    Red,
}

/// The ANSI escape sequence that switches the terminal to `color`.
pub open spec fn color_code(color: Color) -> Seq<char> {
    match color {
        Color::Blue => "\x1B[34m"@,
        Color::Default => "\x1B[0m"@,
        Color::Red => "\x1B[31m"@,
    }
}

pub fn get_color_code(color: Color) -> (code: String)
    ensures
        code@ == color_code(color),
{
    match color {
        Color::Blue => String::from_str("\x1B[34m"),
        Color::Default => String::from_str("\x1B[0m"),
        Color::Red => String::from_str("\x1B[31m"),
    }
}

} // verus!
