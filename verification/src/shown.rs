//! The text of a value: what it displays as, and so what stands for it in a
//! field of rendered text.

use vstd::prelude::*;

verus! {

/// A value with a text of its own. A text is its own text; a number is
/// written in decimal digits.
pub trait Shown {
    /// The text that the value displays as.
    spec fn shown(&self) -> Seq<char>;

    /// The text that the value displays as, as a string.
    fn show(&self) -> (text: String)
        ensures
            text@ == self.shown(),
    ;
}

impl Shown for String {
    open spec fn shown(&self) -> Seq<char> {
        self@
    }

    fn show(&self) -> (text: String) {
        self.clone()
    }
}

impl<'a> Shown for &'a str {
    open spec fn shown(&self) -> Seq<char> {
        (*self)@
    }

    fn show(&self) -> (text: String) {
        (*self).to_owned()
    }
}

/// The character of a decimal digit.
pub open spec fn digit_char(digit: nat) -> char {
    if digit == 0 {
        '0'
    } else if digit == 1 {
        '1'
    } else if digit == 2 {
        '2'
    } else if digit == 3 {
        '3'
    } else if digit == 4 {
        '4'
    } else if digit == 5 {
        '5'
    } else if digit == 6 {
        '6'
    } else if digit == 7 {
        '7'
    } else if digit == 8 {
        '8'
    } else {
        '9'
    }
}

/// A number in decimal digits, without leading zeros.
pub open spec fn decimal_text(n: nat) -> Seq<char>
    decreases n,
{
    if n < 10 {
        seq![digit_char(n)]
    } else {
        decimal_text(n / 10).push(digit_char(n % 10))
    }
}

/// The text of one decimal digit.
fn digit_text(digit: u64) -> (text: &'static str)
    requires
        digit < 10,
    ensures
        text@ == seq![digit_char(digit as nat)],
{
    proof {
        reveal_strlit("0");
        reveal_strlit("1");
        reveal_strlit("2");
        reveal_strlit("3");
        reveal_strlit("4");
        reveal_strlit("5");
        reveal_strlit("6");
        reveal_strlit("7");
        reveal_strlit("8");
        reveal_strlit("9");
    }
    let text = if digit == 0 {
        "0"
    } else if digit == 1 {
        "1"
    } else if digit == 2 {
        "2"
    } else if digit == 3 {
        "3"
    } else if digit == 4 {
        "4"
    } else if digit == 5 {
        "5"
    } else if digit == 6 {
        "6"
    } else if digit == 7 {
        "7"
    } else if digit == 8 {
        "8"
    } else {
        "9"
    };
    proof {
        assert(text@ =~= seq![digit_char(digit as nat)]);
    }
    text
}

/// A number written in decimal digits.
pub fn decimal_string(n: u64) -> (text: String)
    ensures
        text@ == decimal_text(n as nat),
    decreases n,
{
    if n < 10 {
        digit_text(n).to_owned()
    } else {
        let mut text = decimal_string(n / 10);
        text.append(digit_text(n % 10));
        proof {
            assert(text@ =~= decimal_text((n / 10) as nat).push(digit_char((n % 10) as nat)));
        }
        text
    }
}

impl Shown for u8 {
    open spec fn shown(&self) -> Seq<char> {
        decimal_text(*self as nat)
    }

    fn show(&self) -> (text: String) {
        decimal_string(*self as u64)
    }
}

impl Shown for u16 {
    open spec fn shown(&self) -> Seq<char> {
        decimal_text(*self as nat)
    }

    fn show(&self) -> (text: String) {
        decimal_string(*self as u64)
    }
}

impl Shown for u32 {
    open spec fn shown(&self) -> Seq<char> {
        decimal_text(*self as nat)
    }

    fn show(&self) -> (text: String) {
        decimal_string(*self as u64)
    }
}

impl Shown for u64 {
    open spec fn shown(&self) -> Seq<char> {
        decimal_text(*self as nat)
    }

    fn show(&self) -> (text: String) {
        decimal_string(*self)
    }
}

impl Shown for usize {
    open spec fn shown(&self) -> Seq<char> {
        decimal_text(*self as nat)
    }

    fn show(&self) -> (text: String) {
        decimal_string(*self as u64)
    }
}

} // verus!
