//! Whole numbers written in decimal.

use vstd::prelude::*;

verus! {

/// The character that writes a single digit.
pub open spec fn digit_char(d: int) -> char {
    if d == 0 {
        '0'
    } else if d == 1 {
        '1'
    } else if d == 2 {
        '2'
    } else if d == 3 {
        '3'
    } else if d == 4 {
        '4'
    } else if d == 5 {
        '5'
    } else if d == 6 {
        '6'
    } else if d == 7 {
        '7'
    } else if d == 8 {
        '8'
    } else {
        '9'
    }
}

/// The digits of a number from its first digit that is not zero on; no
/// digit at all for zero.
pub open spec fn significant_digits(n: nat) -> Seq<char>
    decreases n,
{
    if n == 0 {
        Seq::empty()
    } else {
        significant_digits(n / 10).push(digit_char((n % 10) as int))
    }
}

/// A number written in decimal: its digits without leading zeros, a single
/// `0` for zero, and a minus sign in front of a negative number.
pub open spec fn decimal(n: int) -> Seq<char> {
    if n == 0 {
        seq!['0']
    } else if n < 0 {
        seq!['-'] + significant_digits((-n) as nat)
    } else {
        significant_digits(n as nat)
    }
}

/// The character that writes a single digit.
fn digit(d: u32) -> (c: char)
    requires
        d < 10,
    ensures
        c == digit_char(d as int),
{
    match d {
        0 => '0',
        1 => '1',
        2 => '2',
        3 => '3',
        4 => '4',
        5 => '5',
        6 => '6',
        7 => '7',
        8 => '8',
        _ => '9',
    }
}

/// Writes a number in decimal.
pub fn decimal_text(n: i32) -> (written: String)
    ensures
        written@ == decimal(n as int),
{
    let mut written = String::new();
    if n == 0 {
        written.push('0');
        assert(written@ == seq!['0']);
        return written;
    }
    let magnitude: u32 = if n < 0 {
        written.push('-');
        (-(n as i64)) as u32
    } else {
        n as u32
    };
    let ghost sign = written@;
    assert(sign == if n < 0 {
        seq!['-']
    } else {
        Seq::<char>::empty()
    });
    let mut backwards: Vec<char> = Vec::new();
    let mut rest: u32 = magnitude;
    while rest > 0
        invariant
            significant_digits(magnitude as nat) == significant_digits(rest as nat)
                + backwards@.reverse(),
        decreases rest,
    {
        let ghost before = backwards@;
        backwards.push(digit(rest % 10));
        proof {
            let last = digit_char((rest % 10) as int);
            assert(backwards@.reverse() == seq![last] + before.reverse());
            assert(significant_digits(rest as nat) == significant_digits((rest / 10) as nat).push(
                last,
            ));
            assert(significant_digits((rest / 10) as nat).push(last) + before.reverse()
                == significant_digits((rest / 10) as nat) + (seq![last] + before.reverse()));
        }
        rest = rest / 10;
    }
    assert(significant_digits(magnitude as nat) == backwards@.reverse());
    let mut i: usize = backwards.len();
    while i > 0
        invariant
            i <= backwards.len(),
            written@ == sign + backwards@.reverse().take(backwards.len() - i),
        decreases i,
    {
        i -= 1;
        written.push(backwards[i]);
        proof {
            let turned = backwards@.reverse();
            let k = backwards.len() - i - 1;
            assert(turned[k] == backwards@[i as int]);
            assert(turned.take(k + 1) == turned.take(k).push(turned[k]));
            assert(written@ == sign + turned.take(k + 1));
        }
    }
    assert(backwards@.reverse().take(backwards.len() as int) == backwards@.reverse());
    written
}

} // verus!
