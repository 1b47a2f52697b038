use vstd::prelude::*;

verus! {

/// The one per-record fault the engine reports: a record that needs an amount has none.
#[derive(Clone, Copy, Debug, PartialEq, Eq, Structural)]
pub enum PaymentEngineError {
    MissingAmount(u32),
}

/// Why a line is not a record.
#[derive(Clone, Copy, Debug, PartialEq, Eq, Structural)]
pub enum ParseError {
    /// Fewer than three fields.
    InvalidFormat,
    /// The first field is not one of the five kinds.
    InvalidType,
    /// The client field is not a 16-bit unsigned integer.
    InvalidClient,
    /// The transaction field is not a 32-bit unsigned integer.
    InvalidTx,
    /// The amount field is present but not a decimal.
    InvalidAmount,
}

pub open spec fn digit_char(d: nat) -> char {
    if d == 0 {
        '0'
    } else if d == 1 {
        '1'
    } else if d == 2 {
        '2'
    } else if d == 3 {
        '3'
    } else if d == 4 {
        '4'
    } else if d == 5 {
        '5'
    } else if d == 6 {
        '6'
    } else if d == 7 {
        '7'
    } else if d == 8 {
        '8'
    } else {
        '9'
    }
}

/// `n` written in decimal digits.
pub open spec fn decimal_digits(n: nat) -> Seq<char>
    decreases n,
{
    if n < 10 {
        seq![digit_char(n)]
    } else {
        decimal_digits(n / 10).push(digit_char(n % 10))
    }
}

/// The text that describes an error.
pub open spec fn error_message(e: PaymentEngineError) -> Seq<char> {
    match e {
        PaymentEngineError::MissingAmount(tx) => "Missing amount for transaction "@ + decimal_digits(
            tx as nat,
        ),
    }
}

fn digit_text(d: u32) -> (r: &'static str)
    requires
        d < 10,
    ensures
        r@ == seq![digit_char(d as nat)],
{
    proof {
        reveal_strlit("0");
        reveal_strlit("1");
        reveal_strlit("2");
        reveal_strlit("3");
        reveal_strlit("4");
        reveal_strlit("5");
        reveal_strlit("6");
        reveal_strlit("7");
        reveal_strlit("8");
        reveal_strlit("9");
    }
    match d {
        0 => "0",
        1 => "1",
        2 => "2",
        3 => "3",
        4 => "4",
        5 => "5",
        6 => "6",
        7 => "7",
        8 => "8",
        _ => "9",
    }
}

fn append_decimal(s: &mut String, n: u32)
    ensures
        final(s)@ == old(s)@ + decimal_digits(n as nat),
    decreases n,
{
    if n >= 10 {
        append_decimal(s, n / 10);
    }
    s.append(digit_text(n % 10));
    proof {
        if n < 10 {
            assert(old(s)@ + decimal_digits(n as nat) == old(s)@ + seq![digit_char(n as nat)]);
        } else {
            assert(old(s)@ + decimal_digits(n as nat) == (old(s)@ + decimal_digits(
                (n / 10) as nat,
            )) + seq![digit_char((n % 10) as nat)]);
        }
    }
}

impl PaymentEngineError {
    /// The text that describes the error.
    pub fn to_string(&self) -> (r: String)
        ensures
            r@ == error_message(*self),
    {
        match self {
            PaymentEngineError::MissingAmount(tx) => {
                let mut s = String::from_str("Missing amount for transaction ");
                append_decimal(&mut s, *tx);
                s
            },
        }
    }
}

} // verus!
