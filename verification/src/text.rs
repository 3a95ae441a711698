//! Building narration strings from verified pieces.

use vstd::prelude::*;
use vstd::string::StringExecFns;

verus! {

/// The decimal digit character for `d`, for `0 <= d <= 9`.
pub open spec fn digit_char(d: int) -> char {
    if d == 0 {
        '0'
    } else if d == 1 {
        '1'
    } else if d == 2 {
        '2'
    } else if d == 3 {
        '3'
    } else if d == 4 {
        '4'
    } else if d == 5 {
        '5'
    } else if d == 6 {
        '6'
    } else if d == 7 {
        '7'
    } else if d == 8 {
        '8'
    } else {
        '9'
    }
}

/// The decimal digits of `n`, most significant first.
pub open spec fn spec_digits(n: int) -> Seq<char>
    decreases n,
{
    if n < 10 {
        seq![digit_char(n)]
    } else {
        spec_digits(n / 10) + seq![digit_char(n % 10)]
    }
}

/// The two pieces laid end to end.
pub(crate) fn concat_strs(a: &str, b: &str) -> (r: String)
    ensures
        r@ == a@ + b@,
{
    let s = a.to_owned();
    s.concat(b)
}

/// The one-character string for a single decimal digit.
pub fn digit_str(d: u32) -> (r: &'static str)
    requires
        d < 10,
    ensures
        r@ =~= seq![digit_char(d as int)],
{
    match d {
        0 => {
            let s = "0";
            proof {
                reveal_strlit("0");
            }
            s
        },
        1 => {
            let s = "1";
            proof {
                reveal_strlit("1");
            }
            s
        },
        2 => {
            let s = "2";
            proof {
                reveal_strlit("2");
            }
            s
        },
        3 => {
            let s = "3";
            proof {
                reveal_strlit("3");
            }
            s
        },
        4 => {
            let s = "4";
            proof {
                reveal_strlit("4");
            }
            s
        },
        5 => {
            let s = "5";
            proof {
                reveal_strlit("5");
            }
            s
        },
        6 => {
            let s = "6";
            proof {
                reveal_strlit("6");
            }
            s
        },
        7 => {
            let s = "7";
            proof {
                reveal_strlit("7");
            }
            s
        },
        8 => {
            let s = "8";
            proof {
                reveal_strlit("8");
            }
            s
        },
        _ => {
            let s = "9";
            proof {
                reveal_strlit("9");
            }
            s
        },
    }
}

/// Renders `n` in decimal.
pub fn u32_string(n: u32) -> (r: String)
    ensures
        r@ == spec_digits(n as int),
    decreases n,
{
    if n < 10 {
        let r = digit_str(n).to_owned();
        assert(r@ =~= spec_digits(n as int));
        r
    } else {
        let prefix = u32_string(n / 10);
        let last = digit_str(n % 10);
        let r = concat_strs(prefix.as_str(), last);
        assert(r@ =~= spec_digits(n as int));
        r
    }
}

} // verus!
