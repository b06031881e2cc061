use vstd::prelude::*;
use vstd::string::StringExecFns;

verus! {

/// The character of one decimal digit.
pub open spec fn digit_char(d: nat) -> char {
    if d == 0 {
        '0'
    } else if d == 1 {
        '1'
    } else if d == 2 {
        '2'
    } else if d == 3 {
        '3'
    } else if d == 4 {
        '4'
    } else if d == 5 {
        '5'
    } else if d == 6 {
        '6'
    } else if d == 7 {
        '7'
    } else if d == 8 {
        '8'
    } else {
        '9'
    }
}

/// The decimal digits of `n`, most significant first, without leading zeros
/// (a single `0` for zero itself).
pub open spec fn dec_digits(n: nat) -> Seq<char>
    decreases n,
{
    if n < 10 {
        seq![digit_char(n)]
    } else {
        dec_digits(n / 10) + seq![digit_char(n % 10)]
    }
}

/// The one-character text of a decimal digit.
fn digit_str(d: u64) -> (r: &'static str)
    requires
        d < 10,
    ensures
        r@ == seq![digit_char(d as nat)],
{
    proof {
        reveal_strlit("0");
        reveal_strlit("1");
        reveal_strlit("2");
        reveal_strlit("3");
        reveal_strlit("4");
        reveal_strlit("5");
        reveal_strlit("6");
        reveal_strlit("7");
        reveal_strlit("8");
        reveal_strlit("9");
    }
    let r: &'static str = if d == 0 {
        "0"
    } else if d == 1 {
        "1"
    } else if d == 2 {
        "2"
    } else if d == 3 {
        "3"
    } else if d == 4 {
        "4"
    } else if d == 5 {
        "5"
    } else if d == 6 {
        "6"
    } else if d == 7 {
        "7"
    } else if d == 8 {
        "8"
    } else {
        "9"
    };
    proof {
        assert(r@ =~= seq![digit_char(d as nat)]);
    }
    r
}

/// Render `n` in decimal, most significant digit first.
pub fn decimal_string(n: u64) -> (r: String)
    ensures
        r@ == dec_digits(n as nat),
    decreases n,
{
    if n < 10 {
        digit_str(n).to_owned()
    } else {
        proof {
            assert(n / 10 < n) by (nonlinear_arith)
                requires
                    n >= 10,
            ;
        }
        let prefix = decimal_string(n / 10);
        let r = prefix.concat(digit_str(n % 10));
        proof {
            assert(r@ =~= dec_digits(n as nat));
        }
        r
    }
}

/// The line reported for one successful read: `<symbol> value is <value>`.
pub fn format_read_line(symbol: &str, value: u32) -> (r: String)
    ensures
        r@ == symbol@ + " value is "@ + dec_digits(value as nat),
{
    let mut s = symbol.to_owned();
    s.append(" value is ");
    let digits = decimal_string(value as u64);
    s.append(digits.as_str());
    proof {
        assert(s@ =~= symbol@ + " value is "@ + dec_digits(value as nat));
    }
    s
}

/// The line reported for one successful write: `Wrote <value> to <symbol>`.
pub fn format_write_line(value: u32, symbol: &str) -> (r: String)
    ensures
        r@ == "Wrote "@ + dec_digits(value as nat) + " to "@ + symbol@,
{
    let mut s = "Wrote ".to_owned();
    let digits = decimal_string(value as u64);
    s.append(digits.as_str());
    s.append(" to ");
    s.append(symbol);
    proof {
        assert(s@ =~= "Wrote "@ + dec_digits(value as nat) + " to "@ + symbol@);
    }
    s
}

/// The line reported before the inter-cycle sleep: `Sleeping <ms> ms`.
pub fn format_sleep_line(ms: u64) -> (r: String)
    ensures
        r@ == "Sleeping "@ + dec_digits(ms as nat) + " ms"@,
{
    let mut s = "Sleeping ".to_owned();
    let digits = decimal_string(ms);
    s.append(digits.as_str());
    s.append(" ms");
    proof {
        assert(s@ =~= "Sleeping "@ + dec_digits(ms as nat) + " ms"@);
    }
    s
}

/// The addressable identity of the first controller instance on the target:
/// the device network identity followed by `:` and the fixed AMS port.
pub fn ams_addr_string(net_id: &str) -> (r: String)
    ensures
        r@ == net_id@ + ":"@ + dec_digits(crate::PLC_AMS_PORT as nat),
{
    let mut s = net_id.to_owned();
    s.append(":");
    let digits = decimal_string(crate::PLC_AMS_PORT as u64);
    s.append(digits.as_str());
    proof {
        assert(s@ =~= net_id@ + ":"@ + dec_digits(crate::PLC_AMS_PORT as nat));
    }
    s
}

} // verus!
