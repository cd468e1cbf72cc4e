//! The boundary-safe result: a typed outcome rendered into exactly one of
//! two optional strings, ready to hand across a foreign-function boundary.

use vstd::prelude::*;
use vstd::string::StringExecFns;
use crate::error::{error_message, ProfileError};

verus! {

/// The decimal digit character for `d`.
pub open spec fn decimal_digit(d: int) -> char {
    if d == 0 {
        '0'
    } else if d == 1 {
        '1'
    } else if d == 2 {
        '2'
    } else if d == 3 {
        '3'
    } else if d == 4 {
        '4'
    } else if d == 5 {
        '5'
    } else if d == 6 {
        '6'
    } else if d == 7 {
        '7'
    } else if d == 8 {
        '8'
    } else {
        '9'
    }
}

/// The decimal digits of `n`, most significant first.
pub open spec fn decimal_digits(n: nat) -> Seq<char>
    decreases n,
{
    if n < 10 {
        seq![decimal_digit(n as int)]
    } else {
        decimal_digits(n / 10).push(decimal_digit((n % 10) as int))
    }
}

/// The decimal rendering of `n`, with a leading minus sign when negative.
pub open spec fn decimal_text(n: int) -> Seq<char> {
    if n < 0 {
        seq!['-'] + decimal_digits((-n) as nat)
    } else {
        decimal_digits(n as nat)
    }
}

fn push_digit(s: &mut String, d: u64)
    requires
        d < 10,
    ensures
        final(s)@ == old(s)@ + seq![decimal_digit(d as int)],
{
    if d == 0 {
        s.append("0");
        proof {
            reveal_strlit("0");
            assert("0"@ =~= seq!['0']);
        }
    } else if d == 1 {
        s.append("1");
        proof {
            reveal_strlit("1");
            assert("1"@ =~= seq!['1']);
        }
    } else if d == 2 {
        s.append("2");
        proof {
            reveal_strlit("2");
            assert("2"@ =~= seq!['2']);
        }
    } else if d == 3 {
        s.append("3");
        proof {
            reveal_strlit("3");
            assert("3"@ =~= seq!['3']);
        }
    } else if d == 4 {
        s.append("4");
        proof {
            reveal_strlit("4");
            assert("4"@ =~= seq!['4']);
        }
    } else if d == 5 {
        s.append("5");
        proof {
            reveal_strlit("5");
            assert("5"@ =~= seq!['5']);
        }
    } else if d == 6 {
        s.append("6");
        proof {
            reveal_strlit("6");
            assert("6"@ =~= seq!['6']);
        }
    } else if d == 7 {
        s.append("7");
        proof {
            reveal_strlit("7");
            assert("7"@ =~= seq!['7']);
        }
    } else if d == 8 {
        s.append("8");
        proof {
            reveal_strlit("8");
            assert("8"@ =~= seq!['8']);
        }
    } else {
        s.append("9");
        proof {
            reveal_strlit("9");
            assert("9"@ =~= seq!['9']);
        }
    }
}

fn push_decimal_digits(s: &mut String, m: u64)
    ensures
        final(s)@ == old(s)@ + decimal_digits(m as nat),
    decreases m,
{
    if m < 10 {
        push_digit(s, m);
    } else {
        push_decimal_digits(s, m / 10);
        push_digit(s, m % 10);
        proof {
            assert(s@ =~= old(s)@ + decimal_digits(m as nat));
        }
    }
}

/// The decimal rendering of a signed integer.
pub fn i64_to_decimal(n: i64) -> (s: String)
    ensures
        s@ == decimal_text(n as int),
{
    let mut s = String::new();
    if n < 0 {
        s.append("-");
        proof {
            reveal_strlit("-");
            assert(s@ =~= seq!['-']);
        }
        let magnitude = (-(n as i128)) as u64;
        proof {
            assert(magnitude == (-(n as int)) as nat);
        }
        push_decimal_digits(&mut s, magnitude);
        proof {
            assert(s@ =~= decimal_text(n as int));
        }
    } else {
        push_decimal_digits(&mut s, n as u64);
        proof {
            assert(s@ =~= decimal_text(n as int));
        }
    }
    s
}

/// A boundary-safe result: exactly one of the two fields carries text — the
/// success value rendered in decimal, or the error rendered as a message.
#[derive(Debug)]
pub struct ExternResult {
    pub ok: Option<String>,
    pub err: Option<String>,
}

impl ExternResult {
    /// Exactly one of the two fields is present.
    pub open spec fn well_formed(&self) -> bool {
        self.ok is Some <==> self.err is None
    }

    /// Marshal a recording outcome: a success becomes its decimal text in
    /// `ok`, an error its message in `err`; the other field stays absent.
    pub fn from_result(result: Result<i64, ProfileError>) -> (r: ExternResult)
        ensures
            r.well_formed(),
            match result {
                Ok(v) => r.err is None && (r.ok matches Some(s) && s@ == decimal_text(v as int)),
                Err(e) => r.ok is None && (r.err matches Some(s) && s@ == error_message(e)),
            },
    {
        match result {
            Ok(value) => ExternResult { err: None, ok: Some(i64_to_decimal(value)) },
            Err(e) => ExternResult { err: Some(e.message()), ok: None },
        }
    }
}

} // verus!
