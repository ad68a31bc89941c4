//! The control sequences that move the cursor and clear the screen.

use vstd::prelude::*;
use vstd::string::*;

verus! {

/// The character of the escape key, with which each control sequence begins.
pub const ESC: char = '\x1B';

/// The character of a decimal digit.
pub open spec fn digit(d: nat) -> char
    recommends
        d < 10,
{
    if d == 0 {
        '0'
    } else if d == 1 {
        '1'
    } else if d == 2 {
        '2'
    } else if d == 3 {
        '3'
    } else if d == 4 {
        '4'
    } else if d == 5 {
        '5'
    } else if d == 6 {
        '6'
    } else if d == 7 {
        '7'
    } else if d == 8 {
        '8'
    } else {
        '9'
    }
}

/// A number written in decimal, without leading zeros.
pub open spec fn decimal(n: nat) -> Seq<char>
    decreases n,
{
    if n < 10 {
        seq![digit(n)]
    } else {
        decimal(n / 10).push(digit(n % 10))
    }
}

/// The sequence that clears the whole screen: `ESC [ 2 J`.
pub open spec fn clear_screen_sequence() -> Seq<char> {
    seq![ESC, '[', '2', 'J']
}

/// The sequence that puts the cursor at a row and a column, both counted
/// from 1: `ESC [ row ; col H`.
pub open spec fn move_cursor_sequence(row: nat, col: nat) -> Seq<char> {
    seq![ESC, '['] + decimal(row) + seq![';'] + decimal(col) + seq!['H']
}

/// The sequence that clears the screen and puts the cursor at its origin.
pub open spec fn clear_and_home_sequence() -> Seq<char> {
    clear_screen_sequence() + move_cursor_sequence(1, 1)
}

fn digit_char(d: usize) -> (c: char)
    requires
        d < 10,
    ensures
        c == digit(d as nat),
{
    if d == 0 {
        '0'
    } else if d == 1 {
        '1'
    } else if d == 2 {
        '2'
    } else if d == 3 {
        '3'
    } else if d == 4 {
        '4'
    } else if d == 5 {
        '5'
    } else if d == 6 {
        '6'
    } else if d == 7 {
        '7'
    } else if d == 8 {
        '8'
    } else {
        '9'
    }
}

/// Appends a number in decimal to a string.
fn push_decimal(out: &mut String, n: usize)
    ensures
        final(out)@ == old(out)@ + decimal(n as nat),
    decreases n,
{
    if n >= 10 {
        push_decimal(out, n / 10);
    }
    out.push(digit_char(n % 10));
}

/// The sequence that clears the visible screen.
pub fn clear_screen() -> (sequence: String)
    ensures
        sequence@ == clear_screen_sequence(),
{
    let mut sequence = String::new();
    sequence.push(ESC);
    sequence.push('[');
    sequence.push('2');
    sequence.push('J');
    sequence
}

/// The sequence that moves the cursor to the given row and column, leaving
/// what is displayed as it is.
pub fn move_cursor(row: usize, col: usize) -> (sequence: String)
    ensures
        sequence@ == move_cursor_sequence(row as nat, col as nat),
{
    let mut sequence = String::new();
    sequence.push(ESC);
    sequence.push('[');
    push_decimal(&mut sequence, row);
    sequence.push(';');
    push_decimal(&mut sequence, col);
    sequence.push('H');
    sequence
}

/// The sequence that clears the visible screen and resets the cursor to row 1,
/// column 1.
pub fn clear_and_home() -> (sequence: String)
    ensures
        sequence@ == clear_and_home_sequence(),
{
    let mut sequence = clear_screen();
    let home = move_cursor(1, 1);
    sequence.append(home.as_str());
    sequence
}

} // verus!
