//! Numbers and durations as the replies spell them.

use vstd::prelude::*;
use crate::base36::digit_symbol;

verus! {

/// `n` in decimal, without leading zeros.
pub open spec fn decimal(n: nat) -> Seq<char>
    decreases n,
{
    if n < 10 {
        seq![digit_symbol(n)]
    } else {
        decimal(n / 10).push(digit_symbol(n % 10))
    }
}

/// A lifetime in seconds as a reader is told it: seconds up to a minute,
/// then minutes, with the odd seconds after them where there are any.
pub open spec fn human(secs: nat) -> Seq<char> {
    if secs <= 60 {
        decimal(secs) + "s"@
    } else if secs % 60 == 0 {
        decimal(secs / 60) + "m"@
    } else {
        decimal(secs / 60) + "m "@ + decimal(secs % 60) + "s"@
    }
}

fn digit_str(d: u64) -> (s: &'static str)
    requires
        d < 10,
    ensures
        s@ == seq![digit_symbol(d as nat)],
{
    proof {
        reveal_strlit("0");
        reveal_strlit("1");
        reveal_strlit("2");
        reveal_strlit("3");
        reveal_strlit("4");
        reveal_strlit("5");
        reveal_strlit("6");
        reveal_strlit("7");
        reveal_strlit("8");
        reveal_strlit("9");
    }
    let s: &'static str = if d == 0 {
        "0"
    } else if d == 1 {
        "1"
    } else if d == 2 {
        "2"
    } else if d == 3 {
        "3"
    } else if d == 4 {
        "4"
    } else if d == 5 {
        "5"
    } else if d == 6 {
        "6"
    } else if d == 7 {
        "7"
    } else if d == 8 {
        "8"
    } else {
        "9"
    };
    assert(s@ =~= seq![digit_symbol(d as nat)]);
    s
}

/// Writes `n` in decimal.
pub fn to_decimal(n: u64) -> (s: String)
    ensures
        s@ == decimal(n as nat),
    decreases n,
{
    if n < 10 {
        let mut s = String::new();
        s.append(digit_str(n));
        assert(s@ =~= decimal(n as nat));
        s
    } else {
        let mut s = to_decimal(n / 10);
        s.append(digit_str(n % 10));
        assert(s@ =~= decimal(n as nat));
        s
    }
}

/// Writes a lifetime of `secs` seconds as a reader is told it.
pub fn to_human(secs: u64) -> (s: String)
    ensures
        s@ == human(secs as nat),
{
    if secs <= 60 {
        let mut s = to_decimal(secs);
        s.append("s");
        s
    } else if secs % 60 == 0 {
        let mut s = to_decimal(secs / 60);
        s.append("m");
        s
    } else {
        let mut s = to_decimal(secs / 60);
        s.append("m ");
        let odd = to_decimal(secs % 60);
        s.append(odd.as_str());
        s.append("s");
        s
    }
}

} // verus!
