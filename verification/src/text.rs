//! Numbers as text: decimal and hexadecimal digits, written and read.

use vstd::prelude::*;

verus! {

/// The character for a digit below 16.
pub open spec fn digit_char(d: int) -> char {
    if d == 0 {
        '0'
    } else if d == 1 {
        '1'
    } else if d == 2 {
        '2'
    } else if d == 3 {
        '3'
    } else if d == 4 {
        '4'
    } else if d == 5 {
        '5'
    } else if d == 6 {
        '6'
    } else if d == 7 {
        '7'
    } else if d == 8 {
        '8'
    } else if d == 9 {
        '9'
    } else if d == 10 {
        'a'
    } else if d == 11 {
        'b'
    } else if d == 12 {
        'c'
    } else if d == 13 {
        'd'
    } else if d == 14 {
        'e'
    } else {
        'f'
    }
}

/// The decimal digits of `n`, most significant first, without leading
/// zeros; one zero for zero.
pub open spec fn decimal_digits(n: nat) -> Seq<char>
    decreases n,
{
    if n < 10 {
        seq![digit_char(n as int)]
    } else {
        decimal_digits(n / 10).push(digit_char((n % 10) as int))
    }
}

/// The hexadecimal digits of `n`, in lower case, most significant first,
/// without leading zeros; one zero for zero.
pub open spec fn hex_digits(n: nat) -> Seq<char>
    decreases n,
{
    if n < 16 {
        seq![digit_char(n as int)]
    } else {
        hex_digits(n / 16).push(digit_char((n % 16) as int))
    }
}

/// The digits of `n` in base ten or sixteen.
pub open spec fn digits(n: nat, base: nat) -> Seq<char> {
    if base == 10 {
        decimal_digits(n)
    } else {
        hex_digits(n)
    }
}

/// A whole number in decimal, with a minus sign where it is negative.
pub open spec fn decimal(n: int) -> Seq<char> {
    if n < 0 {
        seq!['-'] + digits((-n) as nat, 10)
    } else {
        digits(n as nat, 10)
    }
}

/// A number in hexadecimal, in lower case.
pub open spec fn hexadecimal(n: nat) -> Seq<char> {
    digits(n, 16)
}

fn digit_str(d: u8) -> (s: &'static str)
    requires
        d < 16,
    ensures
        s@ == seq![digit_char(d as int)],
{
    proof {
        reveal_strlit("0");
        reveal_strlit("1");
        reveal_strlit("2");
        reveal_strlit("3");
        reveal_strlit("4");
        reveal_strlit("5");
        reveal_strlit("6");
        reveal_strlit("7");
        reveal_strlit("8");
        reveal_strlit("9");
        reveal_strlit("a");
        reveal_strlit("b");
        reveal_strlit("c");
        reveal_strlit("d");
        reveal_strlit("e");
        reveal_strlit("f");
    }
    let s = match d {
        0 => "0",
        1 => "1",
        2 => "2",
        3 => "3",
        4 => "4",
        5 => "5",
        6 => "6",
        7 => "7",
        8 => "8",
        9 => "9",
        10 => "a",
        11 => "b",
        12 => "c",
        13 => "d",
        14 => "e",
        _ => "f",
    };
    assert(s@ =~= seq![digit_char(d as int)]);
    s
}

/// The digits that were taken off the end of a number, last taken first.
spec fn taken(ds: Seq<u8>) -> Seq<char> {
    Seq::new(ds.len(), |i: int| digit_char(ds[ds.len() - 1 - i] as int))
}

/// Appends the digits of `n` in base ten or sixteen to `out`.
fn push_digits(out: &mut String, n: u64, base: u64)
    requires
        base == 10 || base == 16,
    ensures
        final(out)@ == old(out)@ + digits(n as nat, base as nat),
{
    let mut ds: Vec<u8> = Vec::new();
    let mut m: u64 = n;
    let mut more: bool = true;
    proof {
        assert(taken(ds@) =~= Seq::<char>::empty());
        assert(digits(m as nat, base as nat) + taken(ds@) =~= digits(n as nat, base as nat));
    }
    while more
        invariant
            base == 10 || base == 16,
            forall|i: int| 0 <= i < ds@.len() ==> ds@[i] < 16,
            more ==> digits(n as nat, base as nat) == digits(m as nat, base as nat) + taken(ds@),
            !more ==> digits(n as nat, base as nat) == taken(ds@),
        decreases
                if more {
                    m + 1
                } else {
                    0
                },
    {
        let d = (m % base) as u8;
        let ghost before = ds@;
        ds.push(d);
        proof {
            assert(taken(ds@) =~= seq![digit_char(d as int)] + taken(before));
            if m < base {
                assert(digits(m as nat, base as nat) =~= seq![digit_char(d as int)]);
                assert(digits(n as nat, base as nat) =~= taken(ds@));
            } else {
                assert(digits(m as nat, base as nat) =~= digits(
                    (m / base) as nat,
                    base as nat,
                ).push(digit_char(d as int)));
                assert(digits(n as nat, base as nat) =~= digits((m / base) as nat, base as nat)
                    + taken(ds@));
            }
        }
        if m < base {
            more = false;
        } else {
            m = m / base;
        }
    }
    let mut i: usize = ds.len();
    let ghost start = out@;
    while i > 0
        invariant
            i <= ds@.len(),
            forall|k: int| 0 <= k < ds@.len() ==> ds@[k] < 16,
            out@ == start + taken(ds@).take(ds@.len() - i),
        decreases i,
    {
        i -= 1;
        let ghost before = out@;
        out.append(digit_str(ds[i]));
        proof {
            let k = ds@.len() - 1 - i;
            assert(taken(ds@)[k] == digit_char(ds@[i as int] as int));
            assert(taken(ds@).take(k).push(taken(ds@)[k]) =~= taken(ds@).take(k + 1));
            assert(out@ =~= start + taken(ds@).take(k + 1));
        }
    }
    proof {
        assert(taken(ds@).take(ds@.len() as int) =~= taken(ds@));
    }
}

/// Appends `n` in hexadecimal, in lower case, to `out`.
pub fn push_hexadecimal(out: &mut String, n: u64)
    ensures
        final(out)@ == old(out)@ + hexadecimal(n as nat),
{
    push_digits(out, n, 16);
}

/// Appends `n` in decimal to `out`.
pub fn push_decimal(out: &mut String, n: i64)
    ensures
        final(out)@ == old(out)@ + decimal(n as int),
{
    if n < 0 {
        let magnitude: u64 = (-(n + 1)) as u64 + 1;
        out.append("-");
        proof {
            reveal_strlit("-");
        }
        push_digits(out, magnitude, 10);
        proof {
            assert(out@ =~= old(out)@ + decimal(n as int));
        }
    } else {
        push_digits(out, n as u64, 10);
    }
}

/// `n` in decimal.
pub fn decimal_string(n: i64) -> (s: String)
    ensures
        s@ == decimal(n as int),
{
    let mut s = String::new();
    push_decimal(&mut s, n);
    proof {
        assert(Seq::<char>::empty() + decimal(n as int) =~= decimal(n as int));
    }
    s
}

/// The value of a decimal digit, if the character is one.
pub open spec fn digit_value(c: char) -> Option<int> {
    if c == '0' {
        Some(0)
    } else if c == '1' {
        Some(1)
    } else if c == '2' {
        Some(2)
    } else if c == '3' {
        Some(3)
    } else if c == '4' {
        Some(4)
    } else if c == '5' {
        Some(5)
    } else if c == '6' {
        Some(6)
    } else if c == '7' {
        Some(7)
    } else if c == '8' {
        Some(8)
    } else if c == '9' {
        Some(9)
    } else {
        None
    }
}

pub open spec fn all_digits(s: Seq<char>) -> bool {
    forall|i: int| 0 <= i < s.len() ==> digit_value(#[trigger] s[i]) is Some
}

/// The number that a run of decimal digits stands for.
pub open spec fn digits_value(s: Seq<char>) -> int
    decreases s.len(),
{
    if s.len() == 0 {
        0
    } else {
        digits_value(s.drop_last()) * 10 + match digit_value(s.last()) {
            Some(d) => d,
            None => 0,
        }
    }
}

/// The whole number that a text stands for: an optional sign, `+` or `-`,
/// and then one decimal digit or more; nothing else.
pub open spec fn parsed(s: Seq<char>) -> Option<int> {
    if s.len() == 0 {
        None
    } else if s[0] == '-' {
        if s.len() > 1 && all_digits(s.skip(1)) {
            Some(-digits_value(s.skip(1)))
        } else {
            None
        }
    } else if s[0] == '+' {
        if s.len() > 1 && all_digits(s.skip(1)) {
            Some(digits_value(s.skip(1)))
        } else {
            None
        }
    } else if all_digits(s) {
        Some(digits_value(s))
    } else {
        None
    }
}

fn value_of(c: char) -> (r: Option<u8>)
    ensures
        r is Some == digit_value(c) is Some,
        r matches Some(d) ==> digit_value(c) == Some(d as int) && d < 10,
{
    match c {
        '0' => Some(0),
        '1' => Some(1),
        '2' => Some(2),
        '3' => Some(3),
        '4' => Some(4),
        '5' => Some(5),
        '6' => Some(6),
        '7' => Some(7),
        '8' => Some(8),
        '9' => Some(9),
        _ => None,
    }
}

proof fn lemma_value_grows(s: Seq<char>, k: int)
    requires
        0 <= k <= s.len(),
    ensures
        0 <= digits_value(s.take(k)) <= digits_value(s),
    decreases s.len() - k,
{
    lemma_value_nonnegative(s.take(k));
    if k < s.len() {
        lemma_value_grows(s, k + 1);
        assert(s.take(k + 1).drop_last() =~= s.take(k));
    } else {
        assert(s.take(k) =~= s);
    }
}

proof fn lemma_value_nonnegative(s: Seq<char>)
    ensures
        0 <= digits_value(s),
    decreases s.len(),
{
    if s.len() > 0 {
        lemma_value_nonnegative(s.drop_last());
    }
}

/// Reads a whole number of 64 bits from a text. `None` where the text does
/// not stand for a whole number or the number does not fit.
pub fn parse_i64(text: &str) -> (r: Option<i64>)
    ensures
        match r {
            Some(n) => parsed(text@) == Some(n as int),
            None => parsed(text@) matches Some(n) ==> n < i64::MIN || n > i64::MAX,
        },
{
    let len = text.unicode_len();
    if len == 0 {
        return None;
    }
    let first = text.get_char(0);
    let negative = first == '-';
    let start: usize = if first == '-' || first == '+' {
        1
    } else {
        0
    };
    if start == len {
        return None;
    }
    let ghost body = text@.skip(start as int);
    let limit: u64 = 9223372036854775808;
    let mut acc: u64 = 0;
    let mut i: usize = start;
    proof {
        assert(body.take(0) =~= Seq::<char>::empty());
    }
    while i < len
        invariant
            start <= i <= len,
            len == text@.len(),
            len > 0,
            start == 0 || start == 1,
            start == 1 <==> (text@[0] == '-' || text@[0] == '+'),
            body == text@.skip(start as int),
            limit == 9223372036854775808,
            all_digits(body.take(i - start)),
            acc == digits_value(body.take(i - start)),
            acc <= limit,
        decreases len - i,
    {
        let c = text.get_char(i);
        let ghost k = i - start;
        proof {
            assert(body[k] == c);
            assert(body.take(k + 1).drop_last() =~= body.take(k));
            assert(body.take(k + 1).last() == c);
        }
        match value_of(c) {
            None => {
                proof {
                    if all_digits(body) {
                        assert(digit_value(body[k]) is Some);
                    }
                    if start == 0 && all_digits(text@) {
                        assert(text@.skip(0) =~= text@);
                    }
                }
                return None;
            },
            Some(d) => {
                proof {
                    assert forall|j: int| 0 <= j < k + 1 implies digit_value(
                        #[trigger] body.take(k + 1)[j],
                    ) is Some by {
                        if j < k {
                            assert(body.take(k)[j] == body.take(k + 1)[j]);
                        }
                    }
                }
                if acc > 922337203685477580 || acc * 10 + d as u64 > limit {
                    proof {
                        lemma_value_grows(body, k + 1);
                        if start == 0 {
                            assert(text@.skip(0) =~= text@);
                        }
                    }
                    return None;
                }
                acc = acc * 10 + d as u64;
            },
        }
        i += 1;
    }
    proof {
        assert(body.take(len - start) =~= body);
        if start == 0 {
            assert(text@.skip(0) =~= text@);
        }
    }
    if negative {
        if acc == limit {
            Some(i64::MIN)
        } else {
            Some(-(acc as i64))
        }
    } else if acc == limit {
        None
    } else {
        Some(acc as i64)
    }
}

} // verus!
