//! Keys of a keyboard and their printed names.

use vstd::prelude::*;
use vstd::string::*;

verus! {

/// Represents a key.
#[derive(PartialEq, Eq, Clone, Copy, Hash, Debug, Structural)]
pub enum Key {
    /// Enter or Return key
    Enter,
    Tab,
    Backspace,
    Esc,
    Char(char),
    Ctrl(char),
    Unknown,
}

impl Key {
    /// The printed name of the key: a plain character stands for itself, the
    /// space bar and the named keys are written in angle brackets, and a
    /// control chord is written as `<Ctrl+` character `>`.
    pub open spec fn name(self) -> Seq<char> {
        match self {
            Key::Char(' ') => "<Space>"@,
            Key::Ctrl(' ') => "<Ctrl+Space>"@,
            Key::Char(c) => seq![c],
            Key::Ctrl(c) => "<Ctrl+"@.push(c).push('>'),
            Key::Enter => "<Enter>"@,
            Key::Tab => "<Tab>"@,
            Key::Backspace => "<Backspace>"@,
            Key::Esc => "<Esc>"@,
            Key::Unknown => "Unknown"@,
        }
    }

    /// Renders the key's printed name.
    pub fn to_string(&self) -> (s: String)
        ensures
            s@ == self.name(),
    {
        match *self {
            Key::Char(c) => {
                if c == ' ' {
                    String::from_str("<Space>")
                } else {
                    let mut s = String::new();
                    s.push(c);
                    s
                }
            },
            Key::Ctrl(c) => {
                if c == ' ' {
                    String::from_str("<Ctrl+Space>")
                } else {
                    let mut s = String::from_str("<Ctrl+");
                    s.push(c);
                    s.push('>');
                    s
                }
            },
            Key::Enter => String::from_str("<Enter>"),
            Key::Tab => String::from_str("<Tab>"),
            Key::Backspace => String::from_str("<Backspace>"),
            Key::Esc => String::from_str("<Esc>"),
            Key::Unknown => String::from_str("Unknown"),
        }
    }
}

} // verus!
