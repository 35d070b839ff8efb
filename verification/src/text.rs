//! Text: numbers written in decimal, and the descriptions of shapes.
use vstd::prelude::*;

verus! {

/// The decimal digit `d` as a character.
pub open spec fn digit_char(d: int) -> char {
    (d + 48) as char
}

/// The decimal digits of `n`, most significant first.
pub open spec fn nat_digits(n: nat) -> Seq<char>
    decreases n,
{
    if n < 10 {
        seq![digit_char(n as int)]
    } else {
        nat_digits(n / 10) + seq![digit_char((n % 10) as int)]
    }
}

/// `n` written in decimal, with a leading `-` when it is negative.
pub open spec fn decimal(n: int) -> Seq<char> {
    if n < 0 {
        seq!['-'] + nat_digits((-n) as nat)
    } else {
        nat_digits(n as nat)
    }
}

/// The one-character string of the digit `d`.
fn digit_str(d: u64) -> (r: &'static str)
    requires
        d < 10,
    ensures
        r@ == seq![digit_char(d as int)],
{
    proof {
        reveal_strlit("0");
        reveal_strlit("1");
        reveal_strlit("2");
        reveal_strlit("3");
        reveal_strlit("4");
        reveal_strlit("5");
        reveal_strlit("6");
        reveal_strlit("7");
        reveal_strlit("8");
        reveal_strlit("9");
    }
    match d {
        0 => "0",
        1 => "1",
        2 => "2",
        3 => "3",
        4 => "4",
        5 => "5",
        6 => "6",
        7 => "7",
        8 => "8",
        _ => "9",
    }
}

/// Appends the decimal digits of `n`.
fn push_digits(s: &mut String, n: u64)
    ensures
        final(s)@ == old(s)@ + nat_digits(n as nat),
    decreases n,
{
    if n >= 10 {
        push_digits(s, n / 10);
    }
    s.append(digit_str(n % 10));
    assert(final(s)@ == old(s)@ + nat_digits(n as nat)) by {
        if n >= 10 {
            assert(old(s)@ + nat_digits((n / 10) as nat) + seq![digit_char((n % 10) as int)]
                == old(s)@ + nat_digits(n as nat));
        }
    }
}

/// `n` written in decimal, as `{}` formats it.
pub fn decimal_string(n: i32) -> (r: String)
    ensures
        r@ == decimal(n as int),
{
    let mut s = String::new();
    if n < 0 {
        s.append("-");
        proof {
            reveal_strlit("-");
        }
        let m: u64 = (-(n as i64)) as u64;
        push_digits(&mut s, m);
    } else {
        push_digits(&mut s, n as u64);
    }
    s
}

/// `name(n what)`, as a collection of `n` things is described.
pub open spec fn spec_counted(name: Seq<char>, n: nat, what: Seq<char>) -> Seq<char> {
    name + "("@ + nat_digits(n) + " "@ + what + ")"@
}

/// Describes a collection of `n` things: `name(n what)`.
pub fn counted(name: &str, n: usize, what: &str) -> (r: String)
    ensures
        r@ == spec_counted(name@, n as nat, what@),
{
    let mut s = String::from_str(name);
    s.append("(");
    push_digits(&mut s, n as u64);
    s.append(" ");
    s.append(what);
    s.append(")");
    s
}

} // verus!
