//! Numbers written out.

use vstd::arithmetic::power::{lemma_pow0, pow};
use vstd::prelude::*;

verus! {

/// The digit for `d`, below sixteen.
pub open spec fn digit(d: nat) -> char {
    if d == 0 {
        '0'
    } else if d == 1 {
        '1'
    } else if d == 2 {
        '2'
    } else if d == 3 {
        '3'
    } else if d == 4 {
        '4'
    } else if d == 5 {
        '5'
    } else if d == 6 {
        '6'
    } else if d == 7 {
        '7'
    } else if d == 8 {
        '8'
    } else if d == 9 {
        '9'
    } else if d == 10 {
        'a'
    } else if d == 11 {
        'b'
    } else if d == 12 {
        'c'
    } else if d == 13 {
        'd'
    } else if d == 14 {
        'e'
    } else {
        'f'
    }
}

/// The digits of `n` in base `base`, most significant first.
pub open spec fn digits(n: nat, base: nat) -> Seq<char>
    recommends
        2 <= base <= 16,
    decreases n,
{
    if n < base || base < 2 {
        seq![digit(n)]
    } else {
        proof {
            assert(n / base < n) by (nonlinear_arith)
                requires
                    n >= base,
                    base >= 2,
            ;
        }
        digits(n / base, base).push(digit(n % base))
    }
}

/// The digit for `d`, as a string.
fn digit_str(d: u64) -> (r: &'static str)
    requires
        d < 16,
    ensures
        r@ == seq![digit(d as nat)],
{
    match d {
        0 => {
            proof {
                reveal_strlit("0");
            }
            "0"
        },
        1 => {
            proof {
                reveal_strlit("1");
            }
            "1"
        },
        2 => {
            proof {
                reveal_strlit("2");
            }
            "2"
        },
        3 => {
            proof {
                reveal_strlit("3");
            }
            "3"
        },
        4 => {
            proof {
                reveal_strlit("4");
            }
            "4"
        },
        5 => {
            proof {
                reveal_strlit("5");
            }
            "5"
        },
        6 => {
            proof {
                reveal_strlit("6");
            }
            "6"
        },
        7 => {
            proof {
                reveal_strlit("7");
            }
            "7"
        },
        8 => {
            proof {
                reveal_strlit("8");
            }
            "8"
        },
        9 => {
            proof {
                reveal_strlit("9");
            }
            "9"
        },
        10 => {
            proof {
                reveal_strlit("a");
            }
            "a"
        },
        11 => {
            proof {
                reveal_strlit("b");
            }
            "b"
        },
        12 => {
            proof {
                reveal_strlit("c");
            }
            "c"
        },
        13 => {
            proof {
                reveal_strlit("d");
            }
            "d"
        },
        14 => {
            proof {
                reveal_strlit("e");
            }
            "e"
        },
        _ => {
            proof {
                reveal_strlit("f");
            }
            "f"
        },
    }
}

/// Writes the digits of `n` in base `base` behind `out`.
fn push_digits(out: &mut String, n: u64, base: u64)
    requires
        2 <= base <= 16,
    ensures
        final(out)@ == old(out)@ + digits(n as nat, base as nat),
    decreases n,
{
    if n < base {
        out.append(digit_str(n));
    } else {
        assert(n / base < n) by (nonlinear_arith)
            requires
                n >= base,
                base >= 2,
        ;
        let ghost before = out@;
        push_digits(out, n / base, base);
        out.append(digit_str(n % base));
        proof {
            let high = digits((n / base) as nat, base as nat);
            let low = digit((n % base) as nat);
            assert(before + high + seq![low] =~= before + high.push(low));
        }
    }
}

/// `n` in decimal.
pub fn decimal(n: u64) -> (r: String)
    ensures
        r@ == digits(n as nat, 10),
{
    let mut out = String::new();
    push_digits(&mut out, n, 10);
    assert(Seq::<char>::empty() + digits(n as nat, 10) =~= digits(n as nat, 10));
    out
}

/// `n` in lower-case hexadecimal, behind `0x`.
pub fn hex(n: u64) -> (r: String)
    ensures
        r@ == "0x"@ + digits(n as nat, 16),
{
    let mut out = "0x".to_owned();
    push_digits(&mut out, n, 16);
    out
}

/// The number that the digit `c` stands for: the ten digits from `0`, the
/// letters from `a`.
pub open spec fn digit_number(c: char) -> int {
    if '0' <= c <= '9' {
        c as int - '0' as int
    } else {
        c as int - 'a' as int + 10
    }
}

/// The number that the digits `s` stand for in base `base`: each digit times
/// the base to the power of the number of digits behind it.
pub open spec fn number_of(s: Seq<char>, base: nat) -> int
    decreases s.len(),
{
    if s.len() == 0 {
        0
    } else {
        digit_number(s[0]) * pow(base as int, (s.len() - 1) as nat) + number_of(
            s.drop_first(),
            base,
        )
    }
}

proof fn lemma_number_push(s: Seq<char>, c: char, base: nat)
    ensures
        number_of(s.push(c), base) == number_of(s, base) * base + digit_number(c),
    decreases s.len(),
{
    let b = base as int;
    if s.len() == 0 {
        assert(s.push(c).drop_first() =~= seq![]);
        lemma_pow0(b);
        assert(number_of(s.push(c).drop_first(), base) == 0);
        assert(digit_number(c) * 1 == digit_number(c)) by (nonlinear_arith);
        assert(0 * b == 0) by (nonlinear_arith);
    } else {
        let rest = s.drop_first();
        let x = digit_number(s[0]);
        let p = pow(b, (s.len() - 1) as nat);
        let v = number_of(rest, base);
        let y = digit_number(c);
        lemma_number_push(rest, c, base);
        assert(s.push(c).drop_first() =~= rest.push(c));
        assert(pow(b, s.len()) == b * p) by {
            reveal(pow);
        }
        assert(x * (b * p) + (v * b + y) == (x * p + v) * b + y) by (nonlinear_arith);
    }
}

/// The digits of a number stand for it: they are digits of the base, the first
/// is no zero but for the number zero, and their number is that one.
pub proof fn law_digits(n: nat, base: nat)
    requires
        2 <= base <= 16,
    ensures
        number_of(digits(n, base), base) == n,
        digits(n, base).len() > 0,
        digits(n, base).len() > 1 ==> digits(n, base)[0] != '0',
        forall|i: int|
            0 <= i < digits(n, base).len() ==> {
                &&& '0' <= #[trigger] digits(n, base)[i] <= '9' || 'a' <= digits(n, base)[i] <= 'f'
                &&& digit_number(digits(n, base)[i]) < base
            },
        n > 0 ==> digits(n, base)[0] != '0',
    decreases n,
{
    let s = digits(n, base);
    if n < base {
        assert(s =~= Seq::<char>::empty().push(digit(n)));
        lemma_number_push(seq![], digit(n), base);
        assert(0 * base == 0) by (nonlinear_arith);
    } else {
        assert(0 < n / base < n && (n / base) * base + n % base == n && 0 <= n % base < base)
            by (nonlinear_arith)
            requires
                n >= base,
                base >= 2,
        ;
        law_digits(n / base, base);
        let high = digits(n / base, base);
        lemma_number_push(high, digit(n % base), base);
        assert(s[0] == high[0]);
        assert forall|i: int| 0 <= i < s.len() implies {
            &&& '0' <= #[trigger] s[i] <= '9' || 'a' <= s[i] <= 'f'
            &&& digit_number(s[i]) < base
        } by {
            if i < high.len() {
                assert(s[i] == high[i]);
            }
        }
    }
}

} // verus!
