//! Reading integer literals, as `u64` and `i64` `FromStr` read them.
use vstd::prelude::*;

verus! {

pub open spec fn is_digit(c: char) -> bool {
    '0' <= c <= '9'
}

pub open spec fn all_digits(s: Seq<char>) -> bool {
    forall|i: int| 0 <= i < s.len() ==> is_digit(#[trigger] s[i])
}

/// The value of a string of decimal digits.
pub open spec fn digits_value(s: Seq<char>) -> nat
    decreases s.len(),
{
    if s.len() == 0 {
        0
    } else {
        digits_value(s.drop_last()) * 10 + ((s.last() as nat) - ('0' as nat)) as nat
    }
}

/// What `u64::from_str` gives: an optional `+` and at least one digit, within range.
pub open spec fn u64_parse(s: Seq<char>) -> Option<u64> {
    let body = if s.len() > 0 && s[0] == '+' { s.drop_first() } else { s };
    if body.len() > 0 && all_digits(body) && digits_value(body) <= u64::MAX {
        Some(digits_value(body) as u64)
    } else {
        None
    }
}

/// What `i64::from_str` gives: an optional sign and at least one digit, within range.
pub open spec fn i64_parse(s: Seq<char>) -> Option<i64> {
    let neg = s.len() > 0 && s[0] == '-';
    let body = if s.len() > 0 && (s[0] == '+' || s[0] == '-') { s.drop_first() } else { s };
    if body.len() > 0 && all_digits(body) {
        if neg && digits_value(body) <= 9223372036854775808 {
            Some((0 - digits_value(body)) as i64)
        } else if !neg && digits_value(body) <= 9223372036854775807 {
            Some(digits_value(body) as i64)
        } else {
            None
        }
    } else {
        None
    }
}

/// The value of the digits of `s` from position `from` on, capped just above `cap`:
/// `(value, true)` when it is at most `cap`, `(v, false)` with `v > cap` otherwise.
/// `None` when a character there is not a digit or there is none.
fn read_digits(s: &Vec<char>, from: usize, cap: u64) -> (r: Option<(u64, bool)>)
    requires
        from <= s@.len(),
    ensures
        ({
            let body = s@.skip(from as int);
            match r {
                Some((v, ok)) => body.len() > 0 && all_digits(body) && (ok <==> digits_value(body) <= cap) && (ok
                    ==> v == digits_value(body)),
                None => !(body.len() > 0 && all_digits(body)),
            }
        }),
{
    if from >= s.len() {
        return None;
    }
    let mut v: u128 = 0;
    let mut i: usize = from;
    while i < s.len()
        invariant
            from <= i <= s@.len(),
            all_digits(s@.subrange(from as int, i as int)),
            digits_value(s@.subrange(from as int, i as int)) <= cap ==> v == digits_value(s@.subrange(from as int, i as int)),
            digits_value(s@.subrange(from as int, i as int)) > cap ==> v > cap,
            v <= cap as int * 10 + 9,
        decreases s.len() - i,
    {
        let c = s[i];
        if !('0' <= c && c <= '9') {
            assert(s@.skip(from as int)[i - from] == c);
            return None;
        }
        let d = (c as u32 - '0' as u32) as u128;
        let ghost pre = s@.subrange(from as int, i as int);
        let ghost post = s@.subrange(from as int, i + 1);
        assert(post.drop_last() =~= pre);
        assert(post.last() == c);
        if v <= cap as u128 {
            v = v * 10 + d;
        }
        assert(all_digits(post));
        i = i + 1;
    }
    assert(s@.subrange(from as int, s@.len() as int) =~= s@.skip(from as int));
    if v <= cap as u128 {
        Some((v as u64, true))
    } else {
        Some((cap, false))
    }
}

/// `u64::from_str`.
pub fn parse_u64(s: &Vec<char>) -> (r: Option<u64>)
    ensures
        r == u64_parse(s@),
{
    let from: usize = if s.len() > 0 && s[0] == '+' { 1 } else { 0 };
    assert(s@.skip(from as int) =~= if s@.len() > 0 && s@[0] == '+' { s@.drop_first() } else { s@ });
    match read_digits(s, from, u64::MAX) {
        Some((v, true)) => Some(v),
        _ => None,
    }
}

/// `i64::from_str`.
pub fn parse_i64(s: &Vec<char>) -> (r: Option<i64>)
    ensures
        r == i64_parse(s@),
{
    let neg = s.len() > 0 && s[0] == '-';
    let from: usize = if s.len() > 0 && (s[0] == '+' || s[0] == '-') { 1 } else { 0 };
    assert(s@.skip(from as int) =~= if s@.len() > 0 && (s@[0] == '+' || s@[0] == '-') { s@.drop_first() } else { s@ });
    if neg {
        match read_digits(s, from, 9223372036854775808u64) {
            Some((v, true)) => {
                if v == 9223372036854775808u64 {
                    Some(i64::MIN)
                } else {
                    Some(-(v as i64))
                }
            },
            _ => None,
        }
    } else {
        match read_digits(s, from, 9223372036854775807u64) {
            Some((v, true)) => Some(v as i64),
            _ => None,
        }
    }
}

} // verus!
