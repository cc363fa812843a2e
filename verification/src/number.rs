//! Decimal integer literals: reading one from text and writing one out.

use vstd::prelude::*;

verus! {

/// The ASCII code of `-`.
const MINUS: u8 = 45;

/// The ASCII code of `+`.
const PLUS: u8 = 43;

/// The ASCII code of `0`.
const ZERO: u8 = 48;

/// The ASCII code of `9`.
const NINE: u8 = 57;

/// Whether `c` is one of the ten ASCII digits.
pub open spec fn is_digit(c: char) -> bool {
    '0' <= c <= '9'
}

/// The value of the digit `c`.
pub open spec fn digit_value(c: char) -> int {
    c as int - '0' as int
}

/// The character that writes the digit `d`, for `0 <= d <= 9`.
pub open spec fn digit_char(d: int) -> char {
    if d == 0 {
        '0'
    } else if d == 1 {
        '1'
    } else if d == 2 {
        '2'
    } else if d == 3 {
        '3'
    } else if d == 4 {
        '4'
    } else if d == 5 {
        '5'
    } else if d == 6 {
        '6'
    } else if d == 7 {
        '7'
    } else if d == 8 {
        '8'
    } else {
        '9'
    }
}

/// Whether every character of `s` is a digit.
pub open spec fn all_digits(s: Seq<char>) -> bool {
    forall|i: int| 0 <= i < s.len() ==> is_digit(#[trigger] s[i])
}

/// The number that the digits of `s` write in base ten; 0 for no digits.
pub open spec fn digits_value(s: Seq<char>) -> nat
    decreases s.len(),
{
    if s.len() == 0 {
        0
    } else {
        (digits_value(s.drop_last()) * 10 + digit_value(s.last())) as nat
    }
}

/// Whether `s` begins with a sign character.
pub open spec fn has_sign(s: Seq<char>) -> bool {
    s.len() > 0 && (s[0] == '-' || s[0] == '+')
}

/// The part of `s` behind its sign, or all of `s` where it has none.
pub open spec fn unsigned_part(s: Seq<char>) -> Seq<char> {
    if has_sign(s) {
        s.subrange(1, s.len() as int)
    } else {
        s
    }
}

/// The integer that `s` writes: an optional `+` or `-`, then one or more
/// digits and nothing else. `None` for any other text.
pub open spec fn integer_literal(s: Seq<char>) -> Option<int> {
    let body = unsigned_part(s);
    if body.len() == 0 || !all_digits(body) {
        None
    } else if has_sign(s) && s[0] == '-' {
        Some(-(digits_value(body) as int))
    } else {
        Some(digits_value(body) as int)
    }
}

/// The `i32` that `s` writes, or `None` where `s` is no integer literal or
/// its value does not fit.
pub open spec fn i32_literal(s: Seq<char>) -> Option<i32> {
    match integer_literal(s) {
        Some(v) => if i32::MIN <= v <= i32::MAX {
            Some(v as i32)
        } else {
            None
        },
        None => None,
    }
}

/// The digits of `n` in base ten, most significant first, without leading
/// zeros; `"0"` for zero.
pub open spec fn digits_of(n: nat) -> Seq<char>
    decreases n,
{
    if n < 10 {
        seq![digit_char(n as int)]
    } else {
        digits_of(n / 10).push(digit_char((n % 10) as int))
    }
}

/// The decimal text of `n`: a `-` for a negative number, then its digits.
pub open spec fn decimal_text(n: int) -> Seq<char> {
    if n < 0 {
        seq!['-'] + digits_of((-n) as nat)
    } else {
        digits_of(n as nat)
    }
}

/// The one-character text of the digit `d`.
fn digit_text(d: u32) -> (t: &'static str)
    requires
        d < 10,
    ensures
        t@ == seq![digit_char(d as int)],
{
    proof {
        reveal_strlit("0");
        reveal_strlit("1");
        reveal_strlit("2");
        reveal_strlit("3");
        reveal_strlit("4");
        reveal_strlit("5");
        reveal_strlit("6");
        reveal_strlit("7");
        reveal_strlit("8");
        reveal_strlit("9");
    }
    let t = if d == 0 {
        "0"
    } else if d == 1 {
        "1"
    } else if d == 2 {
        "2"
    } else if d == 3 {
        "3"
    } else if d == 4 {
        "4"
    } else if d == 5 {
        "5"
    } else if d == 6 {
        "6"
    } else if d == 7 {
        "7"
    } else if d == 8 {
        "8"
    } else {
        "9"
    };
    assert(t@ =~= seq![digit_char(d as int)]);
    t
}

/// Writes the digits of `n`.
fn write_digits(n: u32) -> (t: String)
    ensures
        t@ == digits_of(n as nat),
    decreases n,
{
    if n < 10 {
        digit_text(n).to_owned()
    } else {
        let mut t = write_digits(n / 10);
        t.append(digit_text(n % 10));
        assert(t@ =~= digits_of(n as nat));
        t
    }
}

/// Writes `n` in decimal.
pub fn i32_text(n: i32) -> (t: String)
    ensures
        t@ == decimal_text(n as int),
{
    if n < 0 {
        let magnitude: u32 = (-(n as i64)) as u32;
        proof {
            reveal_strlit("-");
        }
        let mut t = "-".to_owned();
        let digits = write_digits(magnitude);
        t.append(digits.as_str());
        assert(t@ =~= decimal_text(n as int));
        t
    } else {
        write_digits(n as u32)
    }
}

/// Reads an `i32` from `s`: an optional sign, then digits only. Text that
/// holds anything else, no digit at all, or a number beyond `i32` gives
/// `None`.
pub fn parse_i32(s: &str) -> (r: Option<i32>)
    ensures
        r == i32_literal(s@),
{
    if !s.is_ascii() {
        proof {
            lemma_literal_is_ascii(s@);
        }
        return None;
    }
    let n: usize = s.as_bytes().len();
    proof {
        vstd::string::is_ascii_spec_bytes(s);
    }
    if n == 0 {
        return None;
    }
    let first: u8 = s.get_ascii(0);
    assert(s@[0] == '-' <==> first == MINUS);
    assert(s@[0] == '+' <==> first == PLUS);
    let negative: bool = first == MINUS;
    let start: usize = if first == MINUS || first == PLUS {
        1
    } else {
        0
    };
    if start == n {
        return None;
    }
    let ghost body = unsigned_part(s@);
    assert(body =~= s@.subrange(start as int, n as int));
    // The running value, held at `limit` once it has passed it: whatever
    // is beyond `limit` is beyond `i32` too.
    let limit: u64 = 4_000_000_000;
    let mut total: u64 = 0;
    let mut i: usize = start;
    while i < n
        invariant
            start <= i <= n,
            n == s@.len(),
            s.is_ascii(),
            limit == 4_000_000_000,
            body == s@.subrange(start as int, n as int),
            body == unsigned_part(s@),
            all_digits(body.subrange(0, i - start)),
            total == vstd::math::min(digits_value(body.subrange(0, i - start)) as int, limit as int),
        decreases n - i,
    {
        let b: u8 = s.get_ascii(i);
        if b < ZERO || b > NINE {
            assert(!is_digit(body[i - start]));
            return None;
        }
        let ghost before = body.subrange(0, i - start);
        let ghost after = body.subrange(0, i - start + 1);
        assert(after.drop_last() =~= before);
        assert(digit_value(after.last()) == b - ZERO);
        let next: u64 = total * 10 + (b - ZERO) as u64;
        total = if next > limit {
            limit
        } else {
            next
        };
        i = i + 1;
    }
    assert(body.subrange(0, n - start) =~= body);
    if negative {
        if total > 2_147_483_648 {
            None
        } else {
            Some((-(total as i64)) as i32)
        }
    } else {
        if total > 2_147_483_647 {
            None
        } else {
            Some(total as i32)
        }
    }
}

/// Text with a character outside ASCII writes no integer.
proof fn lemma_literal_is_ascii(s: Seq<char>)
    requires
        !vstd::utf8::is_ascii_chars(s),
    ensures
        integer_literal(s) is None,
{
    let i = choose|i: int| 0 <= i < s.len() && !('\0' <= #[trigger] s[i] <= '\u{7f}');
    if has_sign(s) {
        assert(i >= 1);
        assert(unsigned_part(s)[i - 1] == s[i]);
        assert(!is_digit(unsigned_part(s)[i - 1]));
    } else {
        assert(!is_digit(unsigned_part(s)[i]));
    }
}

/// The digits of a number are digits, and there is at least one.
pub proof fn lemma_digits_of(n: nat)
    ensures
        digits_of(n).len() > 0,
        all_digits(digits_of(n)),
    decreases n,
{
    if n >= 10 {
        lemma_digits_of(n / 10);
    }
}

/// Decimal text is never empty and opens with a minus sign or a digit.
pub proof fn lemma_decimal_text_opens(n: int)
    ensures
        decimal_text(n).len() > 0,
        decimal_text(n)[0] == '-' || is_digit(decimal_text(n)[0]),
{
    if n >= 0 {
        lemma_digits_of(n as nat);
    }
}

/// The digits written for a number write that number.
pub proof fn lemma_digits_round_trip(n: nat)
    ensures
        digits_value(digits_of(n)) == n,
    decreases n,
{
    if n >= 10 {
        lemma_digits_round_trip(n / 10);
        let d = digits_of(n);
        assert(d.drop_last() =~= digits_of(n / 10));
        assert(d.last() == digit_char((n % 10) as int));
    } else {
        let d = digits_of(n);
        assert(d.drop_last() =~= Seq::<char>::empty());
        assert(digits_value(d.drop_last()) == 0);
    }
}

/// Reading what was written gives the number back: the decimal text of an
/// `i32` is the literal of that `i32`.
pub proof fn lemma_decimal_round_trip(n: i32)
    ensures
        i32_literal(decimal_text(n as int)) == Some(n),
{
    let s = decimal_text(n as int);
    if n < 0 {
        let m = (-(n as int)) as nat;
        lemma_digits_of(m);
        lemma_digits_round_trip(m);
        assert(has_sign(s));
        assert(unsigned_part(s) =~= digits_of(m));
    } else {
        lemma_digits_of(n as nat);
        lemma_digits_round_trip(n as nat);
        assert(is_digit(s[0]));
        assert(!has_sign(s));
    }
}

} // verus!
