use vstd::prelude::*;

verus! {

/// ASCII `0`.
pub const DIGIT_ZERO: u8 = 48;

/// ASCII `9`.
pub const DIGIT_NINE: u8 = 57;

/// ASCII `+`.
pub const PLUS_SIGN: u8 = 43;

/// Whether `b` is an ASCII decimal digit.
pub open spec fn is_digit(b: u8) -> bool {
    DIGIT_ZERO <= b <= DIGIT_NINE
}

/// Whether every byte of `s` is a decimal digit.
pub open spec fn all_digits(s: Seq<u8>) -> bool {
    forall|i: int| 0 <= i < s.len() ==> is_digit(#[trigger] s[i])
}

/// The number that a run of decimal digits denotes, most significant first.
pub open spec fn digits_value(s: Seq<u8>) -> nat
    decreases s.len(),
{
    if s.len() == 0 {
        0
    } else {
        digits_value(s.drop_last()) * 10 + (s.last() - DIGIT_ZERO) as nat
    }
}

/// The digits of an unsigned numeral: the text without one leading `+`.
pub open spec fn numeral_digits(s: Seq<u8>) -> Seq<u8> {
    if s.len() > 0 && s[0] == PLUS_SIGN {
        s.subrange(1, s.len() as int)
    } else {
        s
    }
}

/// The value of `s` as an unsigned 32-bit decimal numeral: an optional `+`,
/// then one or more digits whose value fits. Leading zeros are allowed.
pub open spec fn parse_u32_spec(s: Seq<u8>) -> Option<u32> {
    let d = numeral_digits(s);
    if d.len() > 0 && all_digits(d) && digits_value(d) <= u32::MAX {
        Some(digits_value(d) as u32)
    } else {
        None
    }
}

/// The decimal digits of `n`, most significant first, without leading
/// zeros; the single digit 0 for zero.
pub open spec fn decimal_digits(n: nat) -> Seq<u8>
    decreases n,
{
    if n < 10 {
        seq![(DIGIT_ZERO + n) as u8]
    } else {
        decimal_digits(n / 10).push((DIGIT_ZERO + n % 10) as u8)
    }
}

/// Reads `s` as an unsigned 32-bit decimal numeral.
pub fn parse_u32(s: &[u8]) -> (r: Option<u32>)
    ensures
        r == parse_u32_spec(s@),
{
    let n: usize = s.len();
    let start: usize = if n > 0 && s[0] == PLUS_SIGN { 1 } else { 0 };
    let ghost d = numeral_digits(s@);
    if start == n {
        return None;
    }
    let mut acc: u64 = 0;
    let mut fits: bool = true;
    let mut i: usize = start;
    while i < n
        invariant
            n == s@.len(),
            start <= i <= n,
            d == numeral_digits(s@),
            d =~= s@.subrange(start as int, n as int),
            all_digits(d.take(i - start)),
            fits ==> acc == digits_value(d.take(i - start)) && acc <= u32::MAX,
            !fits ==> digits_value(d.take(i - start)) > u32::MAX,
        decreases n - i,
    {
        let b: u8 = s[i];
        if b < DIGIT_ZERO || b > DIGIT_NINE {
            assert(d[i - start] == b);
            assert(!all_digits(d));
            return None;
        }
        proof {
            assert(d[i - start] == b);
            let p = d.take(i - start + 1);
            assert(p.drop_last() =~= d.take(i - start));
            assert(p.last() == b);
        }
        if fits {
            let next: u64 = acc * 10 + (b - DIGIT_ZERO) as u64;
            if next > 0xffff_ffff {
                fits = false;
            } else {
                acc = next;
            }
        }
        i = i + 1;
    }
    assert(d.take(n - start) =~= d);
    if fits {
        Some(acc as u32)
    } else {
        None
    }
}

/// Writes `n` in decimal.
pub fn render_u32(n: u32) -> (digits: Vec<u8>)
    ensures
        digits@ == decimal_digits(n as nat),
{
    let mut reversed: Vec<u8> = Vec::new();
    let mut rest: u32 = n;
    while rest >= 10
        invariant
            decimal_digits(n as nat) == decimal_digits(rest as nat) + reversed@.reverse(),
        decreases rest,
    {
        let digit: u8 = DIGIT_ZERO + (rest % 10) as u8;
        proof {
            let low = seq![digit];
            assert(reversed@.push(digit).reverse() =~= low + reversed@.reverse());
            assert(decimal_digits(rest as nat) == decimal_digits((rest / 10) as nat).push(digit));
            assert(decimal_digits((rest / 10) as nat).push(digit) + reversed@.reverse()
                =~= decimal_digits((rest / 10) as nat) + (low + reversed@.reverse()));
        }
        reversed.push(digit);
        rest = rest / 10;
    }
    let mut digits: Vec<u8> = vec![DIGIT_ZERO + rest as u8];
    assert(digits@ =~= decimal_digits(rest as nat));
    let mut i: usize = reversed.len();
    while i > 0
        invariant
            i <= reversed@.len(),
            digits@ == decimal_digits(rest as nat) + reversed@.reverse().take(reversed@.len() - i),
        decreases i,
    {
        i = i - 1;
        let ghost k = reversed@.len() - i - 1;
        assert(reversed@.reverse().take(k + 1) =~= reversed@.reverse().take(k).push(reversed@[i as int]));
        digits.push(reversed[i]);
        assert(digits@ =~= decimal_digits(rest as nat) + reversed@.reverse().take(k + 1));
    }
    assert(reversed@.reverse().take(reversed@.len() as int) =~= reversed@.reverse());
    digits
}

/// The digits of a number are digits, at least one of them, and denote it.
pub proof fn lemma_decimal_digits(n: nat)
    ensures
        decimal_digits(n).len() > 0,
        all_digits(decimal_digits(n)),
        digits_value(decimal_digits(n)) == n,
    decreases n,
{
    if n < 10 {
        let s = decimal_digits(n);
        assert(s.drop_last() =~= Seq::<u8>::empty());
        assert(digits_value(s.drop_last()) == 0);
    } else {
        lemma_decimal_digits(n / 10);
        let front = decimal_digits(n / 10);
        let s = decimal_digits(n);
        assert(s.drop_last() =~= front);
    }
}

/// Writing a number and reading it back gives the number.
pub proof fn lemma_render_then_parse(n: u32)
    ensures
        parse_u32_spec(decimal_digits(n as nat)) == Some(n),
{
    lemma_decimal_digits(n as nat);
}

} // verus!
