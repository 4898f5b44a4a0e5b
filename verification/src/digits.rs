use vstd::prelude::*;

verus! {

/// The character for the decimal digit `d`; only meaningful for `d < 10`.
pub open spec fn digit_char(d: nat) -> char {
    if d == 0 {
        '0'
    } else if d == 1 {
        '1'
    } else if d == 2 {
        '2'
    } else if d == 3 {
        '3'
    } else if d == 4 {
        '4'
    } else if d == 5 {
        '5'
    } else if d == 6 {
        '6'
    } else if d == 7 {
        '7'
    } else if d == 8 {
        '8'
    } else {
        '9'
    }
}

/// The value of a decimal digit character; 10 when `c` is no digit.
pub open spec fn digit_val(c: char) -> nat {
    if c == '0' {
        0
    } else if c == '1' {
        1
    } else if c == '2' {
        2
    } else if c == '3' {
        3
    } else if c == '4' {
        4
    } else if c == '5' {
        5
    } else if c == '6' {
        6
    } else if c == '7' {
        7
    } else if c == '8' {
        8
    } else if c == '9' {
        9
    } else {
        10
    }
}

pub open spec fn is_digit(c: char) -> bool {
    digit_val(c) < 10
}

pub open spec fn all_digits(s: Seq<char>) -> bool {
    forall|i: int| 0 <= i < s.len() ==> is_digit(#[trigger] s[i])
}

/// The number a digit string denotes, most significant digit first.
pub open spec fn digits_val(s: Seq<char>) -> nat
    decreases s.len(),
{
    if s.len() == 0 {
        0
    } else {
        digits_val(s.drop_last()) * 10 + digit_val(s.last())
    }
}

/// The canonical decimal spelling: nonempty, digits only, and no leading zero
/// except in "0" itself.
pub open spec fn canonical_digits(s: Seq<char>) -> bool {
    s.len() > 0 && all_digits(s) && (s.len() > 1 ==> s[0] != '0')
}

/// The canonical decimal rendering of `n`.
pub open spec fn dec_digits(n: nat) -> Seq<char>
    decreases n,
{
    if n < 10 {
        seq![digit_char(n)]
    } else {
        dec_digits(n / 10).push(digit_char(n % 10))
    }
}

/// The rendering of any number is canonical and denotes that number.
pub proof fn lemma_dec_digits(n: nat)
    ensures
        dec_digits(n).len() >= 1,
        all_digits(dec_digits(n)),
        canonical_digits(dec_digits(n)),
        digits_val(dec_digits(n)) == n,
        n > 0 ==> dec_digits(n)[0] != '0',
    decreases n,
{
    assert(digits_val(Seq::<char>::empty()) == 0);
    if n < 10 {
        assert(digit_val(digit_char(n)) == n);
        assert(dec_digits(n) =~= seq![digit_char(n)]);
        assert(dec_digits(n).drop_last() =~= Seq::<char>::empty());
        assert(dec_digits(n).last() == digit_char(n));
    } else {
        lemma_dec_digits(n / 10);
        let d = dec_digits(n);
        assert(d =~= dec_digits(n / 10).push(digit_char(n % 10)));
        assert(d.drop_last() =~= dec_digits(n / 10));
        assert(d.last() == digit_char(n % 10));
        assert(digit_val(digit_char(n % 10)) == n % 10);
        assert(digits_val(d) == (n / 10) * 10 + n % 10);
        assert((n / 10) * 10 + n % 10 == n) by {
            vstd::arithmetic::div_mod::lemma_fundamental_div_mod(n as int, 10);
        }
        assert(n / 10 > 0);
        assert(d[0] == dec_digits(n / 10)[0]);
        assert(forall|i: int| 0 <= i < d.len() ==> is_digit(#[trigger] d[i]));
    }
}

/// A digit string's value never falls when digits are appended at its end.
pub proof fn lemma_digits_val_prefix(s: Seq<char>, i: int)
    requires
        0 <= i <= s.len(),
    ensures
        digits_val(s.take(i)) <= digits_val(s),
    decreases s.len(),
{
    if i == s.len() {
        assert(s.take(i) =~= s);
    } else {
        assert(s.drop_last().take(i) =~= s.take(i));
        lemma_digits_val_prefix(s.drop_last(), i);
    }
}

fn digit_char_of(d: u64) -> (r: char)
    requires
        d < 10,
    ensures
        r == digit_char(d as nat),
{
    if d == 0 {
        '0'
    } else if d == 1 {
        '1'
    } else if d == 2 {
        '2'
    } else if d == 3 {
        '3'
    } else if d == 4 {
        '4'
    } else if d == 5 {
        '5'
    } else if d == 6 {
        '6'
    } else if d == 7 {
        '7'
    } else if d == 8 {
        '8'
    } else {
        '9'
    }
}

/// Renders `n` in canonical decimal.
pub fn u64_to_dec(n: u64) -> (r: String)
    ensures
        r@ == dec_digits(n as nat),
    decreases n,
{
    if n < 10 {
        let mut s = String::new();
        s.push(digit_char_of(n));
        proof {
            assert(s@ =~= seq![digit_char(n as nat)]);
        }
        s
    } else {
        let mut s = u64_to_dec(n / 10);
        s.push(digit_char_of(n % 10));
        proof {
            assert(s@ =~= dec_digits(n as nat / 10).push(digit_char(n as nat % 10)));
        }
        s
    }
}

fn digit_val_of(c: char) -> (r: u64)
    ensures
        r == digit_val(c),
{
    if c == '0' {
        0
    } else if c == '1' {
        1
    } else if c == '2' {
        2
    } else if c == '3' {
        3
    } else if c == '4' {
        4
    } else if c == '5' {
        5
    } else if c == '6' {
        6
    } else if c == '7' {
        7
    } else if c == '8' {
        8
    } else if c == '9' {
        9
    } else {
        10
    }
}

/// Parses `cs[from..to]` as a canonical decimal number that fits in a `u64`.
pub fn parse_dec(cs: &Vec<char>, from: usize, to: usize) -> (r: Option<u64>)
    requires
        from <= to <= cs.len(),
    ensures
        (match r {
            Some(v) => canonical_digits(cs@.subrange(from as int, to as int)) && digits_val(
                cs@.subrange(from as int, to as int),
            ) == v as nat,
            None => !(canonical_digits(cs@.subrange(from as int, to as int)) && digits_val(
                cs@.subrange(from as int, to as int),
            ) <= u64::MAX as nat),
        }),
{
    let ghost seg = cs@.subrange(from as int, to as int);
    if from == to {
        return None;
    }
    if to - from > 1 && cs[from] == '0' {
        proof {
            assert(seg[0] == '0');
        }
        return None;
    }
    let mut acc: u64 = 0;
    let mut i: usize = from;
    while i < to
        invariant
            from <= i <= to <= cs.len(),
            seg == cs@.subrange(from as int, to as int),
            all_digits(seg.take(i - from)),
            acc as nat == digits_val(seg.take(i - from)),
        decreases to - i,
    {
        let c = cs[i];
        proof {
            assert(seg[i - from] == cs@[i as int]);
        }
        let d = digit_val_of(c);
        if d >= 10 {
            proof {
                assert(!is_digit(seg[i - from]));
            }
            return None;
        }
        proof {
            assert(seg.take(i - from + 1).drop_last() =~= seg.take(i - from));
            assert(seg.take(i - from + 1).last() == seg[i - from]);
            assert(digits_val(seg.take(i - from + 1)) == acc as nat * 10 + d);
        }
        if acc > u64::MAX / 10 {
            proof {
                lemma_digits_val_prefix(seg, i - from + 1);
                assert(digits_val(seg) > u64::MAX as nat);
            }
            return None;
        }
        let shifted = acc * 10;
        if d > u64::MAX - shifted {
            proof {
                lemma_digits_val_prefix(seg, i - from + 1);
                assert(digits_val(seg) > u64::MAX as nat);
            }
            return None;
        }
        acc = shifted + d;
        proof {
            assert(forall|j: int|
                0 <= j < i - from + 1 ==> is_digit(#[trigger] seg.take(i - from + 1)[j]));
        }
        i = i + 1;
    }
    proof {
        assert(seg.take(to - from) =~= seg);
    }
    Some(acc)
}

} // verus!
