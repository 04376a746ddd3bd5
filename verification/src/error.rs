//! The two kinds of failure, and how each is worded for the host.

use vstd::prelude::*;
use vstd::string::*;

verus! {

/// Why a decode call failed.
///
/// A `TypeError` says that the input was not text, nor bytes that hold text.
/// A `ParsingError` says that the text is not JSON5; where the parser knows
/// it, `location` is the line and column, both counted from 1.
#[derive(Debug, PartialEq)]
pub enum JsonError {
    TypeError { expected: String, got: String },
    ParsingError { msg: String, location: Option<(usize, usize)> },
}

/// The mathematical content of a [`JsonError`].
pub ghost enum JsonErrorView {
    TypeError { expected: Seq<char>, got: Seq<char> },
    ParsingError { msg: Seq<char>, location: Option<(usize, usize)> },
}

impl View for JsonError {
    type V = JsonErrorView;

    open spec fn view(&self) -> JsonErrorView {
        match *self {
            JsonError::TypeError { expected, got } => JsonErrorView::TypeError {
                expected: expected@,
                got: got@,
            },
            JsonError::ParsingError { msg, location } => JsonErrorView::ParsingError {
                msg: msg@,
                location,
            },
        }
    }
}

/// The error kinds of the host: its general argument-type error, and the
/// decode error that callers can catch on its own.
#[derive(Debug, PartialEq, Eq, Clone, Copy)]
pub enum HostErrorKind {
    TypeError,
    DecodeError,
}

/// A failure as the host raises it: a kind and the message under it.
#[derive(Debug, PartialEq)]
pub struct HostError {
    pub kind: HostErrorKind,
    pub message: String,
}

/// The character of a decimal digit; `d` is below ten.
pub open spec fn digit(d: nat) -> char {
    if d == 0 {
        '0'
    } else if d == 1 {
        '1'
    } else if d == 2 {
        '2'
    } else if d == 3 {
        '3'
    } else if d == 4 {
        '4'
    } else if d == 5 {
        '5'
    } else if d == 6 {
        '6'
    } else if d == 7 {
        '7'
    } else if d == 8 {
        '8'
    } else {
        '9'
    }
}

/// The decimal numeral of `n`, without leading zeros.
pub open spec fn decimal(n: nat) -> Seq<char>
    decreases n,
{
    if n < 10 {
        seq![digit(n)]
    } else {
        decimal(n / 10).push(digit(n % 10))
    }
}

impl JsonErrorView {
    /// The error in one line, under no particular host.
    pub open spec fn text(self) -> Seq<char> {
        match self {
            JsonErrorView::TypeError { expected, got } => "Invalid type: expected "@ + expected
                + ", got "@ + got,
            JsonErrorView::ParsingError { msg, location } => "Failed to parse JSON5: "@ + msg,
        }
    }

    /// The kind under which the host raises the error.
    pub open spec fn host_kind(self) -> HostErrorKind {
        match self {
            JsonErrorView::TypeError { .. } => HostErrorKind::TypeError,
            JsonErrorView::ParsingError { .. } => HostErrorKind::DecodeError,
        }
    }

    /// The message that the host raises: a parse failure names its line and
    /// column, or says that the location is unknown.
    pub open spec fn host_message(self) -> Seq<char> {
        match self {
            JsonErrorView::TypeError { expected, got } => "expected "@ + expected + ", got "@
                + got,
            JsonErrorView::ParsingError { msg, location } => match location {
                Some((line, column)) => msg + " at line "@ + decimal(line as nat) + ", column "@
                    + decimal(column as nat),
                None => msg + " at unknown location"@,
            },
        }
    }
}

/// The number that a decimal numeral stands for.
pub open spec fn numeral_value(numeral: Seq<char>) -> nat
    decreases numeral.len(),
{
    if numeral.len() == 0 {
        0
    } else {
        10 * numeral_value(numeral.drop_last()) + (numeral.last() as u32 - '0' as u32) as nat
    }
}

/// The decimal numeral of a number stands for that number, and has no
/// leading zero unless the number is zero.
pub proof fn lemma_decimal_stands_for_its_number(n: nat)
    ensures
        numeral_value(decimal(n)) == n,
        decimal(n).len() >= 1,
        n > 0 ==> decimal(n)[0] != '0',
    decreases n,
{
    if n < 10 {
        assert(decimal(n).drop_last() =~= Seq::<char>::empty());
        assert(numeral_value(decimal(n).drop_last()) == 0);
    } else {
        lemma_decimal_stands_for_its_number(n / 10);
        assert(decimal(n).drop_last() =~= decimal(n / 10));
    }
}

/// The two kinds of failure are never taken for each other: a type error is
/// raised under the type-error kind of the host and a parse failure under
/// its decode-error kind.
pub proof fn lemma_kinds_do_not_mix(e: JsonErrorView)
    ensures
        e is TypeError <==> e.host_kind() == HostErrorKind::TypeError,
        e is ParsingError <==> e.host_kind() == HostErrorKind::DecodeError,
{
}

/// The one-character string of a decimal digit.
fn digit_str(d: usize) -> (out: &'static str)
    requires
        d < 10,
    ensures
        out@ == seq![digit(d as nat)],
{
    proof {
        reveal_strlit("0");
        reveal_strlit("1");
        reveal_strlit("2");
        reveal_strlit("3");
        reveal_strlit("4");
        reveal_strlit("5");
        reveal_strlit("6");
        reveal_strlit("7");
        reveal_strlit("8");
        reveal_strlit("9");
    }
    let out = if d == 0 {
        "0"
    } else if d == 1 {
        "1"
    } else if d == 2 {
        "2"
    } else if d == 3 {
        "3"
    } else if d == 4 {
        "4"
    } else if d == 5 {
        "5"
    } else if d == 6 {
        "6"
    } else if d == 7 {
        "7"
    } else if d == 8 {
        "8"
    } else {
        "9"
    };
    assert(out@ =~= seq![digit(d as nat)]);
    out
}

/// Appends the decimal numeral of `n` to `text`.
fn push_decimal(text: &mut String, n: usize)
    ensures
        final(text)@ == old(text)@ + decimal(n as nat),
    decreases n,
{
    if n >= 10 {
        push_decimal(text, n / 10);
    }
    text.append(digit_str(n % 10));
    assert(final(text)@ =~= old(text)@ + decimal(n as nat));
}

impl JsonError {
    /// The failure that the host runtime reported while it built a value.
    /// It has no place in the text.
    pub fn from_host_failure(description: String) -> (out: JsonError)
        ensures
            out@ == (JsonErrorView::ParsingError { msg: description@, location: None }),
    {
        JsonError::ParsingError { msg: description, location: None }
    }

    /// The error in one line.
    pub fn to_string(&self) -> (out: String)
        ensures
            out@ == self@.text(),
    {
        match self {
            JsonError::TypeError { expected, got } => {
                let mut out = String::from_str("Invalid type: expected ");
                out.append(expected.as_str());
                out.append(", got ");
                out.append(got.as_str());
                out
            },
            JsonError::ParsingError { msg, location } => {
                let mut out = String::from_str("Failed to parse JSON5: ");
                out.append(msg.as_str());
                out
            },
        }
    }

    /// The error as the host raises it: a type error under the host's
    /// argument-type kind, a parse failure under the decode kind with its
    /// location spelled out.
    pub fn to_host_error(&self) -> (out: HostError)
        ensures
            out.kind == self@.host_kind(),
            out.message@ == self@.host_message(),
    {
        match self {
            JsonError::TypeError { expected, got } => {
                let mut message = String::from_str("expected ");
                message.append(expected.as_str());
                message.append(", got ");
                message.append(got.as_str());
                HostError { kind: HostErrorKind::TypeError, message }
            },
            JsonError::ParsingError { msg, location } => {
                let mut message = msg.clone();
                match location {
                    Some((line, column)) => {
                        message.append(" at line ");
                        push_decimal(&mut message, *line);
                        message.append(", column ");
                        push_decimal(&mut message, *column);
                    },
                    None => {
                        message.append(" at unknown location");
                    },
                }
                HostError { kind: HostErrorKind::DecodeError, message }
            },
        }
    }
}

} // verus!
