use vstd::prelude::*;

verus! {

/// The character that writes one decimal digit.
pub open spec fn digit_char(d: int) -> char {
    if d == 0 {
        '0'
    } else if d == 1 {
        '1'
    } else if d == 2 {
        '2'
    } else if d == 3 {
        '3'
    } else if d == 4 {
        '4'
    } else if d == 5 {
        '5'
    } else if d == 6 {
        '6'
    } else if d == 7 {
        '7'
    } else if d == 8 {
        '8'
    } else if d == 9 {
        '9'
    } else {
        '0'
    }
}

/// The decimal writing of a non-negative integer, most significant digit first.
pub open spec fn spec_digits(n: int) -> Seq<char>
    recommends
        n >= 0,
    decreases n,
{
    if n < 10 {
        seq![digit_char(n)]
    } else {
        spec_digits(n / 10).push(digit_char(n % 10))
    }
}

pub open spec fn is_dec_digit(c: char) -> bool {
    ('0' as u32) <= (c as u32) && (c as u32) <= ('9' as u32)
}

pub open spec fn dec_digit_val(c: char) -> int {
    (c as u32) - ('0' as u32)
}

/// The longest prefix of decimal digits.
pub open spec fn spec_take_digits(s: Seq<char>) -> Seq<char>
    decreases s.len(),
{
    if s.len() > 0 && is_dec_digit(s[0]) {
        seq![s[0]] + spec_take_digits(s.drop_first())
    } else {
        Seq::empty()
    }
}

/// The number a sequence of decimal digits writes.
pub open spec fn spec_digits_value(d: Seq<char>) -> int
    decreases d.len(),
{
    if d.len() == 0 {
        0
    } else {
        spec_digits_value(d.drop_last()) * 10 + dec_digit_val(d.last())
    }
}

pub proof fn lemma_digit_char_digit(d: int)
    requires
        0 <= d < 10,
    ensures
        is_dec_digit(digit_char(d)),
        dec_digit_val(digit_char(d)) == d,
{
}

pub proof fn lemma_spec_digits_all_digits(n: int)
    requires
        n >= 0,
    ensures
        spec_digits(n).len() >= 1,
        forall|i: int| 0 <= i < spec_digits(n).len() ==> is_dec_digit(#[trigger] spec_digits(n)[i]),
    decreases n,
{
    if n < 10 {
        lemma_digit_char_digit(n);
    } else {
        lemma_spec_digits_all_digits(n / 10);
        lemma_digit_char_digit(n % 10);
        assert(spec_digits(n) == spec_digits(n / 10).push(digit_char(n % 10)));
    }
}

/// Reading back the decimal writing of a number yields that number.
pub proof fn lemma_digits_value_round(n: int)
    requires
        n >= 0,
    ensures
        spec_digits_value(spec_digits(n)) == n,
    decreases n,
{
    if n < 10 {
        let d = seq![digit_char(n)];
        assert(d.drop_last() =~= Seq::<char>::empty());
        assert(d.last() == digit_char(n));
        lemma_digit_char_digit(n);
        assert(spec_digits_value(Seq::<char>::empty()) == 0);
        assert(spec_digits_value(d) == 0 * 10 + dec_digit_val(digit_char(n)));
    } else {
        lemma_digits_value_round(n / 10);
        let d = spec_digits(n / 10).push(digit_char(n % 10));
        assert(spec_digits(n) == d);
        assert(d.drop_last() =~= spec_digits(n / 10));
        assert(d.last() == digit_char(n % 10));
        lemma_digit_char_digit(n % 10);
        assert(spec_digits_value(d) == spec_digits_value(spec_digits(n / 10)) * 10 + dec_digit_val(
            digit_char(n % 10),
        ));
        assert(n / 10 * 10 + n % 10 == n);
    }
}

/// The longest digit prefix of a text that starts with `k` digits and then a
/// non-digit (or its end) is exactly those `k` characters.
pub proof fn lemma_take_digits_exact(s: Seq<char>, k: int)
    requires
        0 <= k <= s.len(),
        forall|i: int| 0 <= i < k ==> is_dec_digit(#[trigger] s[i]),
        k == s.len() || !is_dec_digit(s[k]),
    ensures
        spec_take_digits(s) == s.take(k),
    decreases k,
{
    if k == 0 {
        assert(spec_take_digits(s) =~= s.take(0));
    } else {
        lemma_take_digits_exact(s.drop_first(), k - 1);
        assert(spec_take_digits(s) =~= s.take(k));
    }
}

pub proof fn lemma_digits_value_nonneg(d: Seq<char>)
    requires
        forall|i: int| 0 <= i < d.len() ==> is_dec_digit(#[trigger] d[i]),
    ensures
        spec_digits_value(d) >= 0,
    decreases d.len(),
{
    if d.len() > 0 {
        assert(forall|i: int|
            0 <= i < d.drop_last().len() ==> is_dec_digit(#[trigger] d.drop_last()[i]));
        lemma_digits_value_nonneg(d.drop_last());
    }
}

fn digit_char_exec(d: u64) -> (c: char)
    requires
        d < 10,
    ensures
        c == digit_char(d as int),
{
    if d == 0 {
        '0'
    } else if d == 1 {
        '1'
    } else if d == 2 {
        '2'
    } else if d == 3 {
        '3'
    } else if d == 4 {
        '4'
    } else if d == 5 {
        '5'
    } else if d == 6 {
        '6'
    } else if d == 7 {
        '7'
    } else if d == 8 {
        '8'
    } else {
        '9'
    }
}

/// Append the decimal writing of `m` to `out`.
pub fn push_decimal(m: u64, out: &mut Vec<char>)
    ensures
        final(out)@ == old(out)@ + spec_digits(m as int),
    decreases m,
{
    let ghost pre = out@;
    if m >= 10 {
        push_decimal(m / 10, out);
    }
    let d = digit_char_exec(m % 10);
    out.push(d);
    proof {
        if m < 10 {
            assert(m % 10 == m);
            assert(out@ =~= pre + spec_digits(m as int));
        } else {
            assert(out@ =~= pre + spec_digits(m as int));
        }
    }
}

} // verus!
