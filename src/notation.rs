use vstd::prelude::*;

verus! {

broadcast use vstd::string::group_string_axioms;

/// A move text that could not be read; holds the offending text.
#[derive(Debug, Clone)]
pub struct InvalidMove(pub String);

/// The zero-based row that a row digit `1`..`3` names.
pub open spec fn row_of_digit(c: char) -> Option<usize> {
    if c == '1' {
        Some(0)
    } else if c == '2' {
        Some(1)
    } else if c == '3' {
        Some(2)
    } else {
        None
    }
}

/// The zero-based column that a column letter `A`..`C` names, in either case.
pub open spec fn col_of_letter(c: char) -> Option<usize> {
    if c == 'A' || c == 'a' {
        Some(0)
    } else if c == 'B' || c == 'b' {
        Some(1)
    } else if c == 'C' || c == 'c' {
        Some(2)
    } else {
        None
    }
}

/// The (row, column) that a move text names: a row digit followed by a
/// column letter, and nothing else.
pub open spec fn move_of(s: Seq<char>) -> Option<(usize, usize)> {
    if s.len() == 2 && row_of_digit(s[0]) is Some && col_of_letter(s[1]) is Some {
        Some((row_of_digit(s[0])->Some_0, col_of_letter(s[1])->Some_0))
    } else {
        None
    }
}

/// Reads a move such as `1A` or `3c` as a zero-based (row, column).
/// Anything else is rejected with the whole offending text.
pub fn parse_move(input: &str) -> (r: Result<(usize, usize), InvalidMove>)
    ensures
        match move_of(input@) {
            Some(m) => r == Ok::<(usize, usize), InvalidMove>(m),
            None => r is Err && r->Err_0.0@ == input@,
        },
{
    if input.unicode_len() != 2 {
        return Err(InvalidMove(input.to_string()));
    }
    let row: usize = match input.get_char(0) {
        '1' => 0,
        '2' => 1,
        '3' => 2,
        _ => return Err(InvalidMove(input.to_string())),
    };
    let col: usize = match input.get_char(1) {
        'A' | 'a' => 0,
        'B' | 'b' => 1,
        'C' | 'c' => 2,
        _ => return Err(InvalidMove(input.to_string())),
    };
    Ok((row, col))
}

} // verus!
