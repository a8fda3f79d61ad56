//! The text of the guard's log: one line per event, stamped with the time.
use vstd::prelude::*;
use crate::text::string_of;

verus! {

/// The character of the decimal digit `d`.
pub open spec fn digit_char(d: int) -> char {
    seq!['0', '1', '2', '3', '4', '5', '6', '7', '8', '9'][d]
}

/// `n` in decimal, without leading zeros.
pub open spec fn decimal(n: nat) -> Seq<char>
    decreases n,
{
    if n < 10 {
        seq![digit_char(n as int)]
    } else {
        decimal(n / 10).push(digit_char((n % 10) as int))
    }
}

/// A log line: the time in whole seconds in brackets, a space, the message,
/// and a CR LF terminator.
pub open spec fn log_entry_spec(secs: nat, msg: Seq<char>) -> Seq<char> {
    seq!['['] + decimal(secs) + seq![']', ' '] + msg + seq!['\r', '\n']
}

fn push_decimal(n: u64, out: &mut Vec<char>)
    ensures
        final(out)@ == old(out)@ + decimal(n as nat),
    decreases n,
{
    let digits: Vec<char> = vec!['0', '1', '2', '3', '4', '5', '6', '7', '8', '9'];
    assert(digits@ =~= seq!['0', '1', '2', '3', '4', '5', '6', '7', '8', '9']);
    if n >= 10 {
        push_decimal(n / 10, out);
    }
    let d = (n % 10) as usize;
    out.push(digits[d]);
    proof {
        if n >= 10 {
            assert(old(out)@ + decimal((n / 10) as nat) + seq![digit_char(d as int)] =~= old(out)@
                + decimal(n as nat));
        } else {
            assert(old(out)@.push(digit_char(d as int)) =~= old(out)@ + decimal(n as nat));
        }
    }
}

/// `n` in decimal.
pub fn decimal_text(n: u64) -> (r: String)
    ensures
        r@ == decimal(n as nat),
{
    let mut out: Vec<char> = Vec::new();
    push_decimal(n, &mut out);
    assert(out@ =~= decimal(n as nat));
    string_of(out.as_slice())
}

/// The log line for `msg` written at `secs` seconds since the epoch.
pub fn log_entry(secs: u64, msg: &str) -> (r: String)
    ensures
        r@ == log_entry_spec(secs as nat, msg@),
{
    let mut out: Vec<char> = Vec::new();
    out.push('[');
    push_decimal(secs, &mut out);
    out.push(']');
    out.push(' ');
    let ghost before = out@;
    for c in it: msg.chars()
        invariant
            out@ == before + it.seq().subrange(0, it.index() as int),
    {
        out.push(c);
        proof {
            assert(out@ =~= before + it.seq().subrange(0, it.index() + 1));
        }
    }
    proof {
        broadcast use vstd::string::axiom_spec_iter;

    }
    out.push('\r');
    out.push('\n');
    assert(out@ =~= log_entry_spec(secs as nat, msg@));
    string_of(out.as_slice())
}

} // verus!
