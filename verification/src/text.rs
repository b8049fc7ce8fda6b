//! Decimal text for names and generated files.
use vstd::prelude::*;
use vstd::string::StringExecFns;

verus! {

/// The ASCII character of decimal digit `d`.
pub open spec fn digit_char(d: int) -> char {
    (48 + d) as char
}

/// The decimal digits of `n`.
pub open spec fn decimal(n: nat) -> Seq<char>
    decreases n,
{
    if n < 10 {
        seq![digit_char(n as int)]
    } else {
        decimal(n / 10).push(digit_char((n % 10) as int))
    }
}

/// The decimal text of a signed value: a minus sign before the digits of
/// its magnitude when it is negative.
pub open spec fn signed_decimal(n: int) -> Seq<char> {
    if n < 0 {
        seq!['-'] + decimal((-n) as nat)
    } else {
        decimal(n as nat)
    }
}

/// The one-character text of decimal digit `d`.
fn digit_str(d: u64) -> (text: &'static str)
    requires
        d < 10,
    ensures
        text@ == seq![digit_char(d as int)],
{
    match d {
        0 => {
            proof { reveal_strlit("0"); }
            "0"
        },
        1 => {
            proof { reveal_strlit("1"); }
            "1"
        },
        2 => {
            proof { reveal_strlit("2"); }
            "2"
        },
        3 => {
            proof { reveal_strlit("3"); }
            "3"
        },
        4 => {
            proof { reveal_strlit("4"); }
            "4"
        },
        5 => {
            proof { reveal_strlit("5"); }
            "5"
        },
        6 => {
            proof { reveal_strlit("6"); }
            "6"
        },
        7 => {
            proof { reveal_strlit("7"); }
            "7"
        },
        8 => {
            proof { reveal_strlit("8"); }
            "8"
        },
        _ => {
            proof { reveal_strlit("9"); }
            "9"
        },
    }
}

/// Appends the decimal digits of `n`.
pub fn append_decimal(name: &mut String, n: u64)
    ensures
        final(name)@ == old(name)@ + decimal(n as nat),
    decreases n,
{
    if n >= 10 {
        append_decimal(name, n / 10);
    }
    let ghost middle = name@;
    name.append(digit_str(n % 10));
    proof {
        if n >= 10 {
            assert(old(name)@ + decimal(n as nat) =~= old(name)@ + decimal((n / 10) as nat) + seq![digit_char((n % 10) as int)]);
        } else {
            assert(n % 10 == n);
        }
    }
}

/// Appends the decimal text of a signed value.
pub fn append_signed_decimal(text: &mut String, n: i64)
    ensures
        final(text)@ == old(text)@ + signed_decimal(n as int),
{
    if n < 0 {
        proof {
            reveal_strlit("-");
        }
        text.append("-");
        let magnitude: u64 = (0i128 - (n as i128)) as u64;
        append_decimal(text, magnitude);
        proof {
            assert(old(text)@ + seq!['-'] + decimal(magnitude as nat) =~= old(text)@ + signed_decimal(n as int));
        }
    } else {
        append_decimal(text, n as u64);
    }
}

/// Appends `n` right-aligned in a field of `width` characters.
pub fn append_padded_decimal(text: &mut String, n: u64, width: usize)
    ensures
        final(text)@ == old(text)@ + Seq::new(
            if decimal(n as nat).len() < width { (width - decimal(n as nat).len()) as nat } else { 0 },
            |i: int| ' ',
        ) + decimal(n as nat),
{
    let digits = decimal_length(n);
    let mut pad: usize = 0;
    let padding: usize = if digits < width { width - digits } else { 0 };
    while pad < padding
        invariant
            pad <= padding,
            text@ == old(text)@ + Seq::new(pad as nat, |i: int| ' '),
        decreases padding - pad,
    {
        proof {
            reveal_strlit(" ");
        }
        text.append(" ");
        pad = pad + 1;
        proof {
            assert(old(text)@ + Seq::new((pad - 1) as nat, |i: int| ' ') + seq![' '] =~= old(text)@ + Seq::new(
                pad as nat,
                |i: int| ' ',
            ));
        }
    }
    append_decimal(text, n);
    proof {
        assert(old(text)@ + Seq::new(padding as nat, |i: int| ' ') + decimal(n as nat) =~= old(text)@ + Seq::new(
            padding as nat,
            |i: int| ' ',
        ) + decimal(n as nat));
    }
}

/// The number of decimal digits of `n`.
pub fn decimal_length(n: u64) -> (length: usize)
    ensures
        length == decimal(n as nat).len(),
    decreases n,
{
    proof {
        reveal_with_fuel(pow10, 21);
        assert(pow10(20) == 100000000000000000000nat);
        lemma_decimal_length_bound(n as nat, 20);
    }
    if n < 10 {
        1
    } else {
        decimal_length(n / 10) + 1
    }
}

/// Ten to the power `k`.
pub open spec fn pow10(k: nat) -> nat
    decreases k,
{
    if k == 0 {
        1
    } else {
        10 * pow10((k - 1) as nat)
    }
}

/// A number below `10^k` has at most `k` digits.
proof fn lemma_decimal_length_bound(n: nat, k: nat)
    requires
        n < pow10(k),
    ensures
        decimal(n).len() <= if k == 0 { 1 } else { k },
    decreases k,
{
    reveal_with_fuel(pow10, 2);
    if k > 1 && n >= 10 {
        lemma_decimal_length_bound(n / 10, (k - 1) as nat);
    }
}

} // verus!
