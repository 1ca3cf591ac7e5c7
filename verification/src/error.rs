//! The errors of dispatching across threads or tasks, and their texts.

use vstd::prelude::*;
use vstd::string::StringExecFns;

verus! {

/// What can go wrong when a message is sent to, or received from, other
/// threads or tasks.
#[derive(Debug)]
pub enum DispatcherError {
    /// The message could not be published. Holds the channel's description.
    SendError(String),
    /// No message will be received any more. Holds the channel's description.
    RecvError(String),
    /// The subscription fell behind and this many messages were lost to it.
    /// Later messages can still be received.
    Lagged(u64),
}

/// The decimal digit `digit`, for `digit` below ten.
pub open spec fn digit_char(digit: nat) -> char {
    if digit == 0 {
        '0'
    } else if digit == 1 {
        '1'
    } else if digit == 2 {
        '2'
    } else if digit == 3 {
        '3'
    } else if digit == 4 {
        '4'
    } else if digit == 5 {
        '5'
    } else if digit == 6 {
        '6'
    } else if digit == 7 {
        '7'
    } else if digit == 8 {
        '8'
    } else {
        '9'
    }
}

/// `number` in decimal, without leading zeros.
pub open spec fn decimal(number: nat) -> Seq<char>
    decreases number,
{
    if number < 10 {
        seq![digit_char(number)]
    } else {
        decimal(number / 10).push(digit_char(number % 10))
    }
}

/// The text of one decimal digit.
fn digit_text(digit: u64) -> (text: &'static str)
    requires
        digit < 10,
    ensures
        text@ == seq![digit_char(digit as nat)],
{
    proof {
        reveal_strlit("0");
        reveal_strlit("1");
        reveal_strlit("2");
        reveal_strlit("3");
        reveal_strlit("4");
        reveal_strlit("5");
        reveal_strlit("6");
        reveal_strlit("7");
        reveal_strlit("8");
        reveal_strlit("9");
    }
    let text = if digit == 0 {
        "0"
    } else if digit == 1 {
        "1"
    } else if digit == 2 {
        "2"
    } else if digit == 3 {
        "3"
    } else if digit == 4 {
        "4"
    } else if digit == 5 {
        "5"
    } else if digit == 6 {
        "6"
    } else if digit == 7 {
        "7"
    } else if digit == 8 {
        "8"
    } else {
        "9"
    };
    assert(text@ =~= seq![digit_char(digit as nat)]);
    text
}

/// `number` written in decimal.
pub fn decimal_text(number: u64) -> (text: String)
    ensures
        text@ == decimal(number as nat),
    decreases number,
{
    if number < 10 {
        digit_text(number).to_owned()
    } else {
        decimal_text(number / 10).concat(digit_text(number % 10))
    }
}

impl DispatcherError {
    /// What `to_text` returns.
    pub open spec fn text(&self) -> Seq<char> {
        match self {
            DispatcherError::SendError(description) => "error while sending message: "@
                + description@,
            DispatcherError::RecvError(description) => "error while receinging message: "@
                + description@,
            DispatcherError::Lagged(missed) => "error while receinging message: channel lagged by "@
                + decimal(*missed as nat),
        }
    }

    /// The error as a line of text for a person to read.
    pub fn to_text(&self) -> (text: String)
        ensures
            text@ == self.text(),
    {
        match self {
            DispatcherError::SendError(description) => {
                "error while sending message: ".to_owned().concat(description.as_str())
            },
            DispatcherError::RecvError(description) => {
                "error while receinging message: ".to_owned().concat(description.as_str())
            },
            DispatcherError::Lagged(missed) => {
                let number = decimal_text(*missed);
                "error while receinging message: channel lagged by ".to_owned().concat(
                    number.as_str(),
                )
            },
        }
    }
}

} // verus!
