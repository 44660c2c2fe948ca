//! Integers as decimal text, and decimal text as integers.

use vstd::prelude::*;

verus! {

/// The character for the digit `d`.
pub open spec fn digit(d: int) -> char {
    if d == 0 {
        '0'
    } else if d == 1 {
        '1'
    } else if d == 2 {
        '2'
    } else if d == 3 {
        '3'
    } else if d == 4 {
        '4'
    } else if d == 5 {
        '5'
    } else if d == 6 {
        '6'
    } else if d == 7 {
        '7'
    } else if d == 8 {
        '8'
    } else {
        '9'
    }
}

/// The decimal digits of `n`, most significant first, without leading zeros.
pub open spec fn digits(n: nat) -> Seq<char>
    decreases n,
{
    if n < 10 {
        seq![digit(n as int)]
    } else {
        digits(n / 10).push(digit((n % 10) as int))
    }
}

/// The decimal text of `n`: a minus sign if it is negative, then its digits.
pub open spec fn decimal(n: int) -> Seq<char> {
    if n < 0 {
        seq!['-'] + digits((-n) as nat)
    } else {
        digits(n as nat)
    }
}

fn digit_char(d: u64) -> (c: char)
    requires
        d < 10,
    ensures
        c == digit(d as int),
{
    if d == 0 {
        '0'
    } else if d == 1 {
        '1'
    } else if d == 2 {
        '2'
    } else if d == 3 {
        '3'
    } else if d == 4 {
        '4'
    } else if d == 5 {
        '5'
    } else if d == 6 {
        '6'
    } else if d == 7 {
        '7'
    } else if d == 8 {
        '8'
    } else {
        '9'
    }
}

/// The decimal text of `n`, as characters.
pub fn decimal_chars(n: i64) -> (out: Vec<char>)
    ensures
        out@ == decimal(n as int),
{
    let mut m: u64 = if n < 0 {
        ((-(n + 1)) as u64) + 1
    } else {
        n as u64
    };
    let ghost whole = m as nat;
    let mut out: Vec<char> = Vec::new();
    while m >= 10
        invariant
            digits(whole) == digits(m as nat) + out@,
        decreases m,
    {
        let d: u64 = m % 10;
        let ghost before = out@;
        out.insert(0, digit_char(d));
        proof {
            let upper = digits((m / 10) as nat);
            assert(out@ =~= seq![digit(d as int)] + before);
            assert(upper.push(digit(d as int)) + before =~= upper + out@);
        }
        m = m / 10;
    }
    out.insert(0, digit_char(m));
    if n < 0 {
        out.insert(0, '-');
    }
    assert(out@ =~= decimal(n as int));
    out
}


fn sign_or_digit_text(c: char) -> (out: &'static str)
    ensures
        c == '-' || (exists|d: int| 0 <= d < 10 && c == digit(d)) ==> out@ == seq![c],
{
    proof {
        reveal_strlit("-");
        reveal_strlit("0");
        reveal_strlit("1");
        reveal_strlit("2");
        reveal_strlit("3");
        reveal_strlit("4");
        reveal_strlit("5");
        reveal_strlit("6");
        reveal_strlit("7");
        reveal_strlit("8");
        reveal_strlit("9");
    }
    let out = if c == '-' {
        "-"
    } else if c == '0' {
        "0"
    } else if c == '1' {
        "1"
    } else if c == '2' {
        "2"
    } else if c == '3' {
        "3"
    } else if c == '4' {
        "4"
    } else if c == '5' {
        "5"
    } else if c == '6' {
        "6"
    } else if c == '7' {
        "7"
    } else if c == '8' {
        "8"
    } else {
        "9"
    };
    proof {
        if c == '-' || (exists|d: int| 0 <= d < 10 && c == digit(d)) {
            assert(out@ =~= seq![c]);
        }
    }
    out
}

/// Every character of a decimal text is a minus sign or a digit.
proof fn lemma_decimal_chars(n: int, i: int)
    requires
        0 <= i < decimal(n).len(),
    ensures
        decimal(n)[i] == '-' || (exists|d: int| 0 <= d < 10 && decimal(n)[i] == digit(d)),
{
    if n < 0 {
        if i > 0 {
            lemma_digits_chars((-n) as nat, i - 1);
        }
    } else {
        lemma_digits_chars(n as nat, i);
    }
}

proof fn lemma_digits_chars(n: nat, i: int)
    requires
        0 <= i < digits(n).len(),
    ensures
        exists|d: int| 0 <= d < 10 && digits(n)[i] == digit(d),
    decreases n,
{
    if n < 10 {
        assert(digits(n)[i] == digit(n as int));
    } else {
        if i < digits(n / 10).len() {
            lemma_digits_chars(n / 10, i);
        } else {
            assert(digits(n)[i] == digit((n % 10) as int));
        }
    }
}

/// The decimal text of `n`.
pub fn decimal_string(n: i64) -> (out: String)
    ensures
        out@ == decimal(n as int),
{
    let chars = decimal_chars(n);
    let mut out = String::new();
    let mut i: usize = 0;
    while i < chars.len()
        invariant
            i <= chars.len(),
            chars@ == decimal(n as int),
            out@ == chars@.take(i as int),
        decreases chars.len() - i,
    {
        proof {
            lemma_decimal_chars(n as int, i as int);
        }
        out.append(sign_or_digit_text(chars[i]));
        assert(out@ =~= chars@.take(i + 1));
        i = i + 1;
    }
    assert(chars@.take(chars.len() as int) =~= chars@);
    out
}


/// Whether `c` is one of the ten ASCII digits.
pub open spec fn is_digit(c: char) -> bool {
    48 <= c as int <= 57
}

/// Whether `s` is made of ASCII digits alone.
pub open spec fn all_digits(s: Seq<char>) -> bool {
    forall|i: int| 0 <= i < s.len() ==> is_digit(#[trigger] s[i])
}

/// The number that a run of digits spells.
pub open spec fn digits_value(s: Seq<char>) -> int
    decreases s.len(),
{
    if s.len() == 0 {
        0
    } else {
        digits_value(s.drop_last()) * 10 + (s.last() as int - 48)
    }
}

/// The 32-bit integer that `s` spells: an optional `+` or `-`, then one digit or more, and
/// nothing else; `None` where `s` has another form or the number does not fit.
pub open spec fn parsed_i32(s: Seq<char>) -> Option<i32> {
    let signed = s.len() > 0 && (s[0] == '-' || s[0] == '+');
    let body = if signed {
        s.drop_first()
    } else {
        s
    };
    let value = if s.len() > 0 && s[0] == '-' {
        -digits_value(body)
    } else {
        digits_value(body)
    };
    if body.len() > 0 && all_digits(body) && i32::MIN <= value <= i32::MAX {
        Some(value as i32)
    } else {
        None
    }
}

proof fn lemma_value_grows(s: Seq<char>, k: int)
    requires
        all_digits(s),
        0 <= k <= s.len(),
    ensures
        0 <= digits_value(s.take(k)) <= digits_value(s),
    decreases s.len(),
{
    if s.len() == 0 {
        assert(s.take(k) =~= s);
    } else if k == s.len() {
        assert(s.take(k) =~= s);
        lemma_value_grows(s.drop_last(), k - 1);
        assert(is_digit(s.last()));
        assert(s.drop_last().take(k - 1) =~= s.drop_last());
    } else {
        assert(s.take(k) =~= s.drop_last().take(k));
        assert(all_digits(s.drop_last())) by {
            assert forall|i: int| 0 <= i < s.drop_last().len() implies is_digit(
                #[trigger] s.drop_last()[i],
            ) by {
                assert(s.drop_last()[i] == s[i]);
            }
        }
        lemma_value_grows(s.drop_last(), k);
        lemma_value_grows(s.drop_last(), s.len() - 1);
        assert(s.drop_last().take(s.len() - 1) =~= s.drop_last());
        assert(is_digit(s.last()));
    }
}

/// Reads `chars[from..to]` as a 32-bit integer: see [`parsed_i32`].
pub fn parse_i32(chars: &Vec<char>, from: usize, to: usize) -> (r: Option<i32>)
    requires
        from <= to <= chars.len(),
    ensures
        r == parsed_i32(chars@.subrange(from as int, to as int)),
{
    let ghost s = chars@.subrange(from as int, to as int);
    if from == to {
        return None;
    }
    let first = chars[from];
    assert(s[0] == first);
    let negative = first == '-';
    let start: usize = if first == '-' || first == '+' {
        from + 1
    } else {
        from
    };
    let ghost body = chars@.subrange(start as int, to as int);
    assert(body =~= if start > from {
        s.drop_first()
    } else {
        s
    });
    if start == to {
        return None;
    }
    let mut acc: i64 = 0;
    let mut i: usize = start;
    assert(body.take(0) =~= Seq::<char>::empty());
    while i < to
        invariant
            from <= start <= i <= to <= chars.len(),
            start < to,
            s == chars@.subrange(from as int, to as int),
            body == chars@.subrange(start as int, to as int),
            body == if s.len() > 0 && (s[0] == '-' || s[0] == '+') {
                s.drop_first()
            } else {
                s
            },
            negative == (s.len() > 0 && s[0] == '-'),
            all_digits(body.take(i - start)),
            acc == digits_value(body.take(i - start)),
            0 <= acc <= 2147483648,
        decreases to - i,
    {
        let code: u32 = crate::order::code_point(chars[i]);
        let ghost next = body.take(i - start + 1);
        proof {
            assert(next.drop_last() =~= body.take(i - start));
            assert(next.last() == chars[i as int]);
            assert(body[i - start] == chars[i as int]);
        }
        if code < 48 || code > 57 {
            assert(!is_digit(body[i - start]));
            return None;
        }
        let d: i64 = (code - 48) as i64;
        acc = acc * 10 + d;
        proof {
            assert(all_digits(next)) by {
                assert forall|k: int| 0 <= k < next.len() implies is_digit(#[trigger] next[k]) by {
                    if k < next.len() - 1 {
                        assert(next[k] == body.take(i - start)[k]);
                    }
                }
            }
        }
        if acc > 2147483648 {
            proof {
                if all_digits(body) {
                    lemma_value_grows(body, i - start + 1);
                }
            }
            return None;
        }
        i = i + 1;
    }
    assert(body.take(to - start) =~= body);
    if negative {
        Some((-acc) as i32)
    } else if acc <= 2147483647 {
        Some(acc as i32)
    } else {
        None
    }
}

} // verus!
