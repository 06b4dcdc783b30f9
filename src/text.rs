//! Writing numbers and words into strings.
use vstd::prelude::*;
use vstd::string::StringExecFns;

use crate::path::{all_digits, digit_value, digits_value, no_slash, pow10};

verus! {

/// The character of decimal digit `d`.
pub open spec fn digit_char(d: int) -> char {
    if d == 0 {
        '0'
    } else if d == 1 {
        '1'
    } else if d == 2 {
        '2'
    } else if d == 3 {
        '3'
    } else if d == 4 {
        '4'
    } else if d == 5 {
        '5'
    } else if d == 6 {
        '6'
    } else if d == 7 {
        '7'
    } else if d == 8 {
        '8'
    } else {
        '9'
    }
}

/// The decimal digits of `n`, without leading zeros.
pub open spec fn decimal(n: nat) -> Seq<char>
    decreases n,
{
    if n < 10 {
        seq![digit_char(n as int)]
    } else {
        decimal(n / 10).push(digit_char((n % 10) as int))
    }
}

/// The decimal digits of `n`, preceded by as many `pad` characters as make the result
/// `width` characters long (none when the digits alone are as long).
pub open spec fn padded(n: nat, width: nat, pad: char) -> Seq<char> {
    let d = decimal(n);
    if d.len() >= width {
        d
    } else {
        Seq::new((width - d.len()) as nat, |_i: int| pad) + d
    }
}

/// The string of one decimal digit.
fn digit_str(d: u64) -> (r: &'static str)
    requires
        d < 10,
    ensures
        r@ == seq![digit_char(d as int)],
{
    proof {
        reveal_strlit("0");
        reveal_strlit("1");
        reveal_strlit("2");
        reveal_strlit("3");
        reveal_strlit("4");
        reveal_strlit("5");
        reveal_strlit("6");
        reveal_strlit("7");
        reveal_strlit("8");
        reveal_strlit("9");
    }
    if d == 0 {
        "0"
    } else if d == 1 {
        "1"
    } else if d == 2 {
        "2"
    } else if d == 3 {
        "3"
    } else if d == 4 {
        "4"
    } else if d == 5 {
        "5"
    } else if d == 6 {
        "6"
    } else if d == 7 {
        "7"
    } else if d == 8 {
        "8"
    } else {
        "9"
    }
}

/// Appends the decimal digits of `n`.
pub fn push_decimal(s: &mut String, n: u64)
    ensures
        final(s)@ == old(s)@ + decimal(n as nat),
    decreases n,
{
    if n >= 10 {
        push_decimal(s, n / 10);
    }
    s.append(digit_str(n % 10));
}

/// The number of decimal digits of `n`.
pub fn decimal_len(n: u64) -> (r: u64)
    ensures
        r == decimal(n as nat).len(),
        r <= n as int + 1,
    decreases n,
{
    if n >= 10 {
        let k = decimal_len(n / 10);
        assert(n / 10 + 2 <= n + 1);
        k + 1
    } else {
        1
    }
}

/// Appends `n` in decimal, padded on the left with `pad` to `width` characters.
pub fn push_padded(s: &mut String, n: u64, width: u64, pad: &str)
    requires
        pad@.len() == 1,
    ensures
        final(s)@ == old(s)@ + padded(n as nat, width as nat, pad@[0]),
{
    let len = decimal_len(n);
    let ghost start = s@;
    assert(pad@ =~= seq![pad@[0]]);
    let mut k: u64 = len;
    while k < width
        invariant
            len <= k,
            k <= width || k == len,
            pad@ =~= seq![pad@[0]],
            len == decimal(n as nat).len(),
            s@ == start + Seq::new((k - len) as nat, |_i: int| pad@[0]),
        decreases width - k,
    {
        s.append(pad);
        k = k + 1;
        assert(s@ =~= start + Seq::new((k - len) as nat, |_i: int| pad@[0]));
    }
    push_decimal(s, n);
    assert(s@ =~= start + padded(n as nat, width as nat, pad@[0]));
}

proof fn lemma_decimal(n: nat)
    ensures
        all_digits(decimal(n)),
        digits_value(decimal(n)) == n,
        decimal(n).len() >= 1,
    decreases n,
{
    if n >= 10 {
        lemma_decimal(n / 10);
        let d = decimal(n / 10);
        assert(decimal(n).drop_last() =~= d);
        assert(decimal(n).last() == digit_char((n % 10) as int));
        assert(digit_value(digit_char((n % 10) as int)) == n % 10);
        assert(n == (n / 10) * 10 + n % 10);
        assert(digits_value(decimal(n)) == digits_value(d) * 10 + digit_value(decimal(n).last()));
        assert(digits_value(decimal(n)) == (n / 10) * 10 + n % 10);
    } else {
        assert(seq![digit_char(n as int)].drop_last() =~= Seq::<char>::empty());
        assert(digit_value(digit_char(n as int)) == n);
        assert(digits_value(decimal(n)) == digits_value(decimal(n).drop_last()) * 10 + digit_value(
            decimal(n).last(),
        ));
    }
}

proof fn lemma_decimal_len(n: nat, w: nat)
    requires
        w >= 1,
        n < pow10(w),
    ensures
        decimal(n).len() <= w,
    decreases n,
{
    if n >= 10 {
        assert(w >= 2) by {
            if w == 1 {
                assert(pow10(1) == 10 * pow10(0));
            }
        }
        assert(pow10(w) == 10 * pow10((w - 1) as nat));
        lemma_decimal_len(n / 10, (w - 1) as nat);
    }
}

proof fn lemma_leading_zeros(k: nat, d: Seq<char>)
    ensures
        digits_value(Seq::new(k, |_i: int| '0') + d) == digits_value(d),
    decreases d.len(), k,
{
    let z = Seq::new(k, |_i: int| '0');
    if d.len() == 0 {
        assert(z + d =~= z);
        if k > 0 {
            assert(z.drop_last() =~= Seq::new((k - 1) as nat, |_i: int| '0'));
            lemma_leading_zeros((k - 1) as nat, d);
            assert(Seq::new((k - 1) as nat, |_i: int| '0') + d =~= Seq::new((k - 1) as nat, |_i: int| '0'));
        }
    } else {
        assert((z + d).drop_last() =~= z + d.drop_last());
        lemma_leading_zeros(k, d.drop_last());
    }
}

/// Zero-padded digits read back to their number.
pub proof fn lemma_padded_digits(n: nat, w: nat)
    requires
        w >= 1,
        n < pow10(w),
    ensures
        padded(n, w, '0').len() == w,
        all_digits(padded(n, w, '0')),
        digits_value(padded(n, w, '0')) == n,
        no_slash(padded(n, w, '0')),
{
    lemma_decimal(n);
    lemma_decimal_len(n, w);
    let d = decimal(n);
    let p = padded(n, w, '0');
    if d.len() < w {
        let z = Seq::new((w - d.len()) as nat, |_i: int| '0');
        assert(p == z + d);
        lemma_leading_zeros((w - d.len()) as nat, d);
        assert forall|i: int| 0 <= i < p.len() implies '0' <= #[trigger] p[i] <= '9' by {
            if i >= z.len() {
                assert(p[i] == d[i - z.len()]);
            }
        }
    }
    assert forall|i: int| 0 <= i < p.len() implies #[trigger] p[i] != '/' by {
        assert('0' <= p[i] <= '9');
    }
}

/// Padded decimal digits hold no `/` when the padding is not `/`.
pub proof fn lemma_padded_no_slash(n: nat, w: nat, pad: char)
    requires
        pad != '/',
    ensures
        no_slash(padded(n, w, pad)),
{
    lemma_decimal(n);
    let d = decimal(n);
    let p = padded(n, w, pad);
    assert forall|i: int| 0 <= i < p.len() implies #[trigger] p[i] != '/' by {
        if d.len() < w {
            let z = Seq::new((w - d.len()) as nat, |_i: int| pad);
            assert(p == z + d);
            if i >= z.len() {
                assert(p[i] == d[i - z.len()]);
                assert('0' <= d[i - z.len()] <= '9');
            }
        } else {
            assert('0' <= d[i] <= '9');
        }
    }
}

} // verus!
