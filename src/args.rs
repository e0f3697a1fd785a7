//! Positional arguments of the diff command: an optional pull-request id
//! followed by file patterns.
use vstd::prelude::*;

use crate::text::chars_of;

verus! {

pub open spec fn is_digit(c: char) -> bool {
    '0' <= c && c <= '9'
}

/// The value of a run of decimal digits.
pub open spec fn digits_value(d: Seq<char>) -> nat
    decreases d.len(),
{
    if d.len() == 0 {
        0
    } else {
        digits_value(d.drop_last()) * 10 + ((d.last() as u32) - ('0' as u32)) as nat
    }
}

/// The digits of an unsigned decimal number: the text after an optional `+`.
pub open spec fn unsigned_digits(s: Seq<char>) -> Seq<char> {
    if s.len() > 0 && s[0] == '+' {
        s.skip(1)
    } else {
        s
    }
}

/// The `u32` that `s` writes in decimal, as `str::parse::<u32>` reads it: an
/// optional `+`, then at least one digit, of a value that fits.
pub open spec fn parse_u32_spec(s: Seq<char>) -> Option<u32> {
    let d = unsigned_digits(s);
    if d.len() > 0 && (forall|i: int| 0 <= i < d.len() ==> is_digit(d[i])) && digits_value(d)
        <= u32::MAX {
        Some(digits_value(d) as u32)
    } else {
        None
    }
}

/// Reads a `u32` written in decimal.
pub fn parse_u32(s: &str) -> (r: Option<u32>)
    ensures
        r == parse_u32_spec(s@),
{
    let v = chars_of(s);
    let start: usize = if v.len() > 0 && v[0] == '+' {
        1
    } else {
        0
    };
    let ghost d = unsigned_digits(v@);
    assert(d =~= v@.skip(start as int));
    if start >= v.len() {
        return None;
    }
    let cap: u64 = 4294967296;
    let mut acc: u64 = 0;
    let mut i = start;
    assert(d.take(0) =~= Seq::<char>::empty());
    while i < v.len()
        invariant
            start <= i <= v.len(),
            d == v@.skip(start as int),
            d == unsigned_digits(s@),
            v@ == s@,
            cap == u32::MAX + 1,
            forall|j: int| 0 <= j < i - start ==> is_digit(d[j]),
            acc as nat == if digits_value(d.take(i - start)) < cap {
                digits_value(d.take(i - start))
            } else {
                cap as nat
            },
        decreases v.len() - i,
    {
        let c = v[i];
        if !('0' <= c && c <= '9') {
            assert(!is_digit(d[i - start]));
            return None;
        }
        let digit = (c as u32 - '0' as u32) as u64;
        proof {
            let t = d.take(i - start + 1);
            assert(t.drop_last() =~= d.take(i - start));
            assert(t.last() == c);
            let prev = digits_value(d.take(i - start));
            if prev >= cap {
                assert(prev * 10 + digit >= cap) by (nonlinear_arith)
                    requires
                        prev >= cap,
                        digit >= 0,
                ;
            }
        }
        if acc >= cap {
            acc = cap;
        } else {
            let next = acc * 10 + digit;
            acc = if next >= cap {
                cap
            } else {
                next
            };
        }
        i = i + 1;
    }
    assert(d.take(v.len() - start) =~= d);
    if acc >= cap {
        None
    } else {
        Some(acc as u32)
    }
}

/// Splits the arguments into a leading pull-request id, when the first one
/// reads as a `u32`, and the rest.
pub fn parse_args_with_id(args: &[String]) -> (r: (Option<u32>, &[String]))
    ensures
        args@.len() > 0 && parse_u32_spec(args@[0]@) is Some ==> r.0 == parse_u32_spec(
            args@[0]@,
        ) && r.1@ == args@.skip(1),
        !(args@.len() > 0 && parse_u32_spec(args@[0]@) is Some) ==> r.0 is None && r.1@ == args@,
{
    if args.len() > 0 {
        match parse_u32(args[0].as_str()) {
            Some(id) => {
                let rest = &args[1..args.len()];
                assert(rest@ =~= args@.skip(1));
                return (Some(id), rest);
            },
            None => {},
        }
    }
    (None, args)
}

} // verus!
