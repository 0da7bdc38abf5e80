//! Numbers and messages as text.

use vstd::prelude::*;

verus! {

/// The digits of `n`, without leading zeros.
pub open spec fn decimal(n: nat) -> Seq<char>
    decreases n,
{
    if n < 10 {
        seq![digit(n)]
    } else {
        decimal(n / 10).push(digit(n % 10))
    }
}

pub open spec fn digit(d: nat) -> char {
    (48 + d) as char
}

fn digit_str(d: u64) -> (r: &'static str)
    requires
        d < 10,
    ensures
        r@ == seq![digit(d as nat)],
{
    proof {
        reveal_strlit("0");
        reveal_strlit("1");
        reveal_strlit("2");
        reveal_strlit("3");
        reveal_strlit("4");
        reveal_strlit("5");
        reveal_strlit("6");
        reveal_strlit("7");
        reveal_strlit("8");
        reveal_strlit("9");
    }
    let r = if d == 0 {
        "0"
    } else if d == 1 {
        "1"
    } else if d == 2 {
        "2"
    } else if d == 3 {
        "3"
    } else if d == 4 {
        "4"
    } else if d == 5 {
        "5"
    } else if d == 6 {
        "6"
    } else if d == 7 {
        "7"
    } else if d == 8 {
        "8"
    } else {
        "9"
    };
    assert(r@ =~= seq![digit(d as nat)]);
    r
}

/// Appends `n` in decimal.
pub fn push_decimal(s: &mut String, n: u64)
    ensures
        final(s)@ == old(s)@ + decimal(n as nat),
    decreases n,
{
    if n < 10 {
        s.append(digit_str(n));
    } else {
        push_decimal(s, n / 10);
        s.append(digit_str(n % 10));
        assert(s@ =~= old(s)@ + decimal(n as nat));
    }
}

/// As many zeros.
pub open spec fn zeros(n: nat) -> Seq<char> {
    Seq::new(n, |i: int| '0')
}

/// The text with zeros before it, up to the width.
pub open spec fn zero_pad(s: Seq<char>, width: int) -> Seq<char> {
    if s.len() < width {
        zeros((width - s.len()) as nat) + s
    } else {
        s
    }
}

/// `n` in decimal with zeros before it, up to the width. The sign of a negative number comes first
/// and counts.
pub open spec fn padded(n: int, width: int) -> Seq<char> {
    if n < 0 {
        seq!['-'] + zero_pad(decimal((-n) as nat), width - 1)
    } else {
        zero_pad(decimal(n as nat), width)
    }
}

/// Appends `n` in decimal with zeros before it, up to the width.
pub fn push_padded(s: &mut String, n: i64, width: usize)
    ensures
        final(s)@ == old(s)@ + padded(n as int, width as int),
{
    let mut digits = String::new();
    let mut room: usize = width;
    let size: u64 = if n < 0 {
        (-(n as i128)) as u64
    } else {
        n as u64
    };
    push_decimal(&mut digits, size);
    proof {
        reveal_strlit("-");
        reveal_strlit("0");
    }
    if n < 0 {
        s.append("-");
        if room > 0 {
            room = room - 1;
        }
    }
    let ghost signed = s@;
    let mut len: usize = digits.as_str().unicode_len();
    let ghost digits_len: int = len as int;
    assert(digits@ =~= decimal(size as nat));
    while len < room
        invariant
            digits_len == decimal(size as nat).len(),
            digits_len <= len,
            len <= room || len == digits_len,
            s@ == signed + zeros((len - digits_len) as nat),
            "0"@ =~= seq!['0'],
        decreases room - len,
    {
        s.append("0");
        len = len + 1;
        assert(s@ =~= signed + zeros((len - digits_len) as nat));
    }
    s.append(digits.as_str());
    assert(s@ =~= old(s)@ + padded(n as int, width as int));
}

/// A padded number is at least as wide as it is to be.
pub proof fn lemma_padded_width(n: int, width: int)
    ensures
        padded(n, width).len() >= width,
{
}

/// The number that a digit stands for.
pub open spec fn digit_value(c: char) -> int {
    c as int - '0' as int
}

pub open spec fn all_digits(s: Seq<char>) -> bool {
    forall|i: int| 0 <= i < s.len() ==> 0 <= digit_value(#[trigger] s[i]) <= 9
}

/// The number that digits stand for, each ten times the one behind it.
pub open spec fn digits_value(s: Seq<char>) -> int
    decreases s.len(),
{
    if s.len() == 0 {
        0
    } else {
        10 * digits_value(s.drop_last()) + digit_value(s.last())
    }
}

/// One more than the largest number of so many digits.
pub open spec fn digits_limit(n: int) -> int
    decreases n,
{
    if n <= 0 {
        1
    } else {
        10 * digits_limit(n - 1)
    }
}

/// The decimal text of a number is made of digits that stand for it, none of them a zero before the
/// others.
pub proof fn law_decimal(n: nat)
    ensures
        all_digits(decimal(n)),
        digits_value(decimal(n)) == n,
        decimal(n).len() > 0,
        decimal(n).len() > 1 ==> digit_value(decimal(n)[0]) > 0,
        n == 0 <==> decimal(n).len() == 1 && digit_value(decimal(n)[0]) == 0,
    decreases n,
{
    if n < 10 {
        assert(decimal(n).drop_last() =~= Seq::empty());
        assert(digits_value(decimal(n).drop_last()) == 0);
    } else {
        law_decimal(n / 10);
        assert(decimal(n).drop_last() =~= decimal(n / 10));
        assert(decimal(n)[0] == decimal(n / 10)[0]);
    }
}

/// Digits that stand for a number below the limit of a width are no more than the width.
proof fn lemma_decimal_width(n: nat, width: int)
    requires
        n < digits_limit(width),
        width > 0,
    ensures
        decimal(n).len() <= width,
    decreases n,
{
    if n >= 10 {
        assert(width > 1) by {
            if width == 1 {
                assert(digits_limit(0) == 1);
            }
        }
        lemma_decimal_width(n / 10, width - 1);
    }
}

proof fn lemma_zeros_value(n: nat, s: Seq<char>)
    requires
        all_digits(s),
    ensures
        all_digits(zeros(n) + s),
        digits_value(zeros(n) + s) == digits_value(s),
    decreases n + s.len(),
{
    let all = zeros(n) + s;
    assert forall|i: int| 0 <= i < all.len() implies 0 <= digit_value(#[trigger] all[i]) <= 9 by {
        if i >= n {
            assert(all[i] == s[i - n]);
        }
    }
    if s.len() > 0 {
        assert(all.drop_last() =~= zeros(n) + s.drop_last());
        assert forall|i: int| 0 <= i < s.drop_last().len() implies 0 <= digit_value(
            #[trigger] s.drop_last()[i],
        ) <= 9 by {
            assert(s[i] == s.drop_last()[i]);
        }
        lemma_zeros_value(n, s.drop_last());
    } else if n > 0 {
        assert(all.drop_last() =~= zeros((n - 1) as nat) + s);
        lemma_zeros_value((n - 1) as nat, s);
    }
}

/// A number that is not negative is padded to digits that stand for it: exactly as many as the width,
/// or more where it needs more. The sign of a negative number stands before the digits.
pub proof fn law_padded(n: int, width: int)
    requires
        width > 0,
    ensures
        padded(n, width).len() >= width,
        n >= 0 ==> all_digits(padded(n, width)) && digits_value(padded(n, width)) == n,
        0 <= n < digits_limit(width) ==> padded(n, width).len() == width,
        n < 0 ==> padded(n, width)[0] == '-' && all_digits(padded(n, width).skip(1))
            && digits_value(padded(n, width).skip(1)) == -n,
{
    if n >= 0 {
        let s = decimal(n as nat);
        law_decimal(n as nat);
        lemma_zeros_value((width - s.len()) as nat, s);
        if n < digits_limit(width) {
            lemma_decimal_width(n as nat, width);
        }
    } else {
        let s = decimal((-n) as nat);
        law_decimal((-n) as nat);
        lemma_zeros_value((width - 1 - s.len()) as nat, s);
        assert(padded(n, width).skip(1) =~= zero_pad(s, width - 1));
    }
}

/// The first of some digits stand for the number without the others.
pub proof fn lemma_digits_taken(s: Seq<char>, k: int)
    requires
        all_digits(s),
        0 <= k <= s.len(),
    ensures
        digits_value(s) >= 0,
        digits_value(s) < digits_limit(s.len() as int),
        digits_value(s.take(k)) == digits_value(s) / digits_limit(s.len() - k),
        digits_limit(s.len() - k) > 0,
    decreases s.len(),
{
    if s.len() == 0 {
        assert(s.take(k) =~= s);
    } else {
        let before = s.drop_last();
        assert forall|i: int| 0 <= i < before.len() implies 0 <= digit_value(#[trigger] before[i])
            <= 9 by {
            assert(s[i] == before[i]);
        }
        assert(0 <= digit_value(s[s.len() - 1]) <= 9);
        if k == s.len() {
            assert(s.take(k) =~= s);
            lemma_digits_taken(before, before.len() as int);
        } else {
            lemma_digits_taken(before, k);
            assert(s.take(k) =~= before.take(k));
            let (v, d, m) = (digits_value(before), digit_value(s.last()), digits_limit(before.len() - k));
            assert((10 * v + d) / (10 * m) == v / m) by (nonlinear_arith)
                requires
                    0 <= v,
                    0 <= d <= 9,
                    m > 0,
            ;
            assert(digits_limit(s.len() - k) == 10 * m);
        }
    }
}

} // verus!
