//! The positioned error value reported on any scan failure.

use vstd::prelude::*;
use vstd::string::StringExecFns;

verus! {

/// A scan failure: the 1-based source line at which it was detected and a
/// short human-readable message. Constructed once at the point of failure
/// and propagated unchanged to the caller.
#[derive(Clone, Debug, PartialEq)]
pub struct RloxErrorDetail {
    pub line_number: usize,
    pub message: String,
}

/// The mathematical value of a `RloxErrorDetail`.
#[verifier::ext_equal]
pub ghost struct ErrorView {
    pub line_number: int,
    pub message: Seq<char>,
}

impl View for RloxErrorDetail {
    type V = ErrorView;

    open spec fn view(&self) -> ErrorView {
        ErrorView { line_number: self.line_number as int, message: self.message@ }
    }
}

impl RloxErrorDetail {
    /// Builds an error from its line and message; the result carries exactly them.
    pub fn new(line_number: usize, message: String) -> (e: RloxErrorDetail)
        ensures
            e@ == (ErrorView { line_number: line_number as int, message: message@ }),
    {
        RloxErrorDetail { line_number, message }
    }

    /// The diagnostic rendering of the error, for the caller to print:
    /// `[Line <n>] Error: <message>`.
    pub fn render(&self) -> (r: String)
        ensures
            r@ == error_text(self@),
    {
        let mut out = String::from_str("[Line ");
        push_decimal(self.line_number, &mut out);
        out.append("] Error: ");
        out.append(self.message.as_str());
        proof {
            assert(out@ =~= error_text(self@));
        }
        out
    }
}

/// The rendered form of a positioned error.
pub open spec fn error_text(e: ErrorView) -> Seq<char> {
    "[Line "@ + decimal_digits(e.line_number as nat) + "] Error: "@ + e.message
}

/// The character for one decimal digit.
pub open spec fn digit_char(d: nat) -> char {
    if d == 0 {
        '0'
    } else if d == 1 {
        '1'
    } else if d == 2 {
        '2'
    } else if d == 3 {
        '3'
    } else if d == 4 {
        '4'
    } else if d == 5 {
        '5'
    } else if d == 6 {
        '6'
    } else if d == 7 {
        '7'
    } else if d == 8 {
        '8'
    } else {
        '9'
    }
}

/// The decimal digits of `n`, most significant first, with no sign and no
/// leading zero except for zero itself.
pub open spec fn decimal_digits(n: nat) -> Seq<char>
    decreases n,
{
    if n < 10 {
        seq![digit_char(n)]
    } else {
        decimal_digits(n / 10) + seq![digit_char(n % 10)]
    }
}

/// One decimal digit as a string slice.
fn digit_text(d: usize) -> (r: &'static str)
    requires
        d < 10,
    ensures
        r@ == seq![digit_char(d as nat)],
{
    let r: &'static str = if d == 0 {
        "0"
    } else if d == 1 {
        "1"
    } else if d == 2 {
        "2"
    } else if d == 3 {
        "3"
    } else if d == 4 {
        "4"
    } else if d == 5 {
        "5"
    } else if d == 6 {
        "6"
    } else if d == 7 {
        "7"
    } else if d == 8 {
        "8"
    } else {
        "9"
    };
    proof {
        reveal_strlit("0");
        reveal_strlit("1");
        reveal_strlit("2");
        reveal_strlit("3");
        reveal_strlit("4");
        reveal_strlit("5");
        reveal_strlit("6");
        reveal_strlit("7");
        reveal_strlit("8");
        reveal_strlit("9");
        assert(r@ =~= seq![digit_char(d as nat)]);
    }
    r
}

/// Appends the decimal rendering of `n` to `out`.
fn push_decimal(n: usize, out: &mut String)
    ensures
        final(out)@ == old(out)@ + decimal_digits(n as nat),
    decreases n,
{
    if n >= 10 {
        proof {
            assert(n / 10 < n) by (nonlinear_arith)
                requires
                    n >= 10,
            ;
        }
        push_decimal(n / 10, out);
    }
    out.append(digit_text(n % 10));
    proof {
        assert(final(out)@ =~= old(out)@ + decimal_digits(n as nat));
    }
}

} // verus!
