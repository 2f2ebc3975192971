use vstd::prelude::*;
use crate::data_source::chars::push_char;

verus! {

/// The char of the decimal digit `d`.
pub open spec fn digit_char(d: nat) -> char {
    (48 + d) as char
}

/// The decimal digits of `n`, without leading zeros.
pub open spec fn digits(n: nat) -> Seq<char>
    decreases n,
{
    if n < 10 {
        seq![digit_char(n)]
    } else {
        digits(n / 10).push(digit_char(n % 10))
    }
}

/// How `v` is written in decimal: its digits, after a minus sign when it is negative.
pub open spec fn decimal(v: int) -> Seq<char> {
    if v < 0 {
        seq!['-'] + digits((-v) as nat)
    } else {
        digits(v as nat)
    }
}

fn digit_to_char(d: u64) -> (r: char)
    requires
        d < 10,
    ensures
        r == digit_char(d as nat),
{
    ((48u8 + d as u8) as char)
}

/// `v` written in decimal.
pub fn decimal_string(v: i64) -> (r: String)
    ensures
        r@ == decimal(v as int),
{
    let negative = v < 0;
    let m0: u64 = if negative { (0i128 - v as i128) as u64 } else { v as u64 };
    let mut m = m0;
    let mut acc: Vec<char> = Vec::new();
    loop
        invariant_except_break
            digits(m0 as nat) == digits(m as nat) + acc@,
        ensures
            digits(m0 as nat) == acc@,
        decreases m,
    {
        let c = digit_to_char(m % 10);
        let ghost before = acc@;
        acc.insert(0, c);
        if m < 10 {
            proof {
                assert(digits(m as nat) == seq![c]);
                assert(acc@ =~= seq![c] + before);
            }
            break;
        }
        proof {
            assert(digits(m as nat) == digits((m / 10) as nat).push(c));
            assert(digits((m / 10) as nat).push(c) + before =~= digits((m / 10) as nat) + acc@);
        }
        m = m / 10;
    }
    let mut r = String::new();
    if negative {
        push_char(&mut r, '-');
    }
    let ghost prefix = r@;
    let mut i: usize = 0;
    while i < acc.len()
        invariant
            i <= acc@.len(),
            r@ == prefix + acc@.take(i as int),
        decreases acc@.len() - i,
    {
        push_char(&mut r, acc[i]);
        i += 1;
        assert(r@ =~= prefix + acc@.take(i as int));
    }
    assert(acc@.take(acc@.len() as int) =~= acc@);
    r
}

} // verus!
