//! Decimal text for 64-bit ids: formatting and parsing, with a proved
//! round trip. Ids travel as strings in cursors and event payloads so that
//! numeric-limited consumers do not lose precision.

use vstd::prelude::*;

verus! {

/// The character for one decimal digit value.
pub open spec fn spec_digit_char(d: int) -> char {
    if d == 0 {
        '0'
    } else if d == 1 {
        '1'
    } else if d == 2 {
        '2'
    } else if d == 3 {
        '3'
    } else if d == 4 {
        '4'
    } else if d == 5 {
        '5'
    } else if d == 6 {
        '6'
    } else if d == 7 {
        '7'
    } else if d == 8 {
        '8'
    } else {
        '9'
    }
}

/// The decimal digit sequence of a nonnegative integer, most significant
/// digit first, with no leading zeros (a lone zero for 0).
pub open spec fn spec_nat_digits(n: nat) -> Seq<char>
    decreases n,
{
    if n < 10 {
        seq![spec_digit_char(n as int)]
    } else {
        spec_nat_digits((n / 10) as nat).push(spec_digit_char((n % 10) as int))
    }
}

/// The decimal text of a signed integer: a minus sign for negatives,
/// then the digits of the magnitude.
pub open spec fn spec_i64_string(n: int) -> Seq<char> {
    if n < 0 {
        seq!['-'] + spec_nat_digits((-n) as nat)
    } else {
        spec_nat_digits(n as nat)
    }
}

/// Digit values in `ds` read back-to-front, as characters: the digit text of
/// a number whose digits were collected least significant first.
pub open spec fn spec_rev_digit_chars(ds: Seq<u8>) -> Seq<char> {
    Seq::new(ds.len(), |i: int| spec_digit_char(ds[ds.len() - 1 - i] as int))
}

proof fn lemma_rev_digit_chars_push(ds: Seq<u8>, d: u8)
    ensures
        spec_rev_digit_chars(ds.push(d)) =~= seq![spec_digit_char(d as int)]
            + spec_rev_digit_chars(ds),
{
}

/// A one-character string slice for a digit value.
fn digit_str(d: u8) -> (r: &'static str)
    requires
        d < 10,
    ensures
        r@ =~= seq![spec_digit_char(d as int)],
{
    proof {
        reveal_strlit("0");
        reveal_strlit("1");
        reveal_strlit("2");
        reveal_strlit("3");
        reveal_strlit("4");
        reveal_strlit("5");
        reveal_strlit("6");
        reveal_strlit("7");
        reveal_strlit("8");
        reveal_strlit("9");
    }
    match d {
        0 => "0",
        1 => "1",
        2 => "2",
        3 => "3",
        4 => "4",
        5 => "5",
        6 => "6",
        7 => "7",
        8 => "8",
        _ => "9",
    }
}

/// Renders an id as decimal text, the way it travels in cursors and payloads.
pub fn format_i64(n: i64) -> (r: String)
    ensures
        r@ == spec_i64_string(n as int),
{
    let neg: bool = n < 0;
    let mut m: u64 = if n == i64::MIN {
        9223372036854775808u64
    } else if n < 0 {
        (-n) as u64
    } else {
        n as u64
    };
    let ghost orig: nat = m as nat;
    assert(neg ==> orig == -(n as int));
    assert(!neg ==> orig == n as int);

    let mut digits: Vec<u8> = Vec::new();
    if m == 0 {
        digits.push(0);
        proof {
            lemma_rev_digit_chars_push(Seq::<u8>::empty(), 0);
            assert(spec_nat_digits(orig) =~= spec_rev_digit_chars(digits@));
        }
    } else {
        while m > 0
            invariant
                forall|i: int| 0 <= i < digits@.len() ==> digits@[i] < 10,
                m > 0 ==> spec_nat_digits(orig) =~= spec_nat_digits(m as nat)
                    + spec_rev_digit_chars(digits@),
                m == 0 ==> digits@.len() > 0 && spec_nat_digits(orig) =~= spec_rev_digit_chars(
                    digits@,
                ),
            decreases m,
        {
            let ghost m_pre: u64 = m;
            let ghost digits_pre: Seq<u8> = digits@;
            let d: u8 = (m % 10) as u8;
            digits.push(d);
            m = m / 10;
            proof {
                lemma_rev_digit_chars_push(digits_pre, d);
                if m == 0 {
                    assert(m_pre < 10);
                    assert(spec_nat_digits(m_pre as nat) =~= seq![spec_digit_char(d as int)]);
                } else {
                    assert(m_pre >= 10);
                    assert(spec_nat_digits(m_pre as nat) =~= spec_nat_digits(m as nat).push(
                        spec_digit_char(d as int),
                    ));
                    assert(spec_nat_digits(m as nat).push(spec_digit_char(d as int))
                        =~= spec_nat_digits(m as nat) + seq![spec_digit_char(d as int)]);
                }
            }
        }
    }
    assert(digits@.len() > 0);
    assert(spec_nat_digits(orig) =~= spec_rev_digit_chars(digits@));

    let ghost sign: Seq<char> = if neg {
        seq!['-']
    } else {
        Seq::<char>::empty()
    };
    let mut s: String = String::new();
    if neg {
        proof {
            reveal_strlit("-");
        }
        s.append("-");
        assert(s@ =~= sign);
    }
    assert(s@ =~= sign + spec_rev_digit_chars(digits@).take(0));

    let mut i: usize = digits.len();
    while i > 0
        invariant
            i <= digits@.len(),
            forall|k: int| 0 <= k < digits@.len() ==> digits@[k] < 10,
            s@ =~= sign + spec_rev_digit_chars(digits@).take(digits@.len() - i),
        decreases i,
    {
        i = i - 1;
        let ghost s_pre: Seq<char> = s@;
        s.append(digit_str(digits[i]));
        proof {
            let done: int = digits@.len() - i;
            assert(spec_rev_digit_chars(digits@)[done - 1] == spec_digit_char(
                digits@[i as int] as int,
            ));
            assert(spec_rev_digit_chars(digits@).take(done) =~= spec_rev_digit_chars(
                digits@,
            ).take(done - 1).push(spec_digit_char(digits@[i as int] as int)));
            assert(s@ =~= sign + spec_rev_digit_chars(digits@).take(done));
        }
    }
    proof {
        assert(spec_rev_digit_chars(digits@).take(digits@.len() as int) =~= spec_rev_digit_chars(
            digits@,
        ));
        if neg {
            assert(s@ =~= seq!['-'] + spec_nat_digits((-(n as int)) as nat));
        } else {
            assert(s@ =~= spec_nat_digits(n as nat));
        }
    }
    s
}

/// Whether a character is a decimal digit.
pub open spec fn spec_is_digit(c: char) -> bool {
    48 <= c as int && c as int <= 57
}

/// The value of a decimal digit character.
pub open spec fn spec_digit_val(c: char) -> int {
    c as int - 48
}

pub open spec fn spec_all_digits(s: Seq<char>) -> bool {
    forall|i: int| 0 <= i < s.len() ==> spec_is_digit(#[trigger] s[i])
}

/// The integer denoted by a digit sequence, most significant digit first.
pub open spec fn spec_digits_val(s: Seq<char>) -> int
    decreases s.len(),
{
    if s.len() == 0 {
        0
    } else {
        spec_digits_val(s.drop_last()) * 10 + spec_digit_val(s.last())
    }
}

/// What parsing decimal text yields: an optional sign, then at least one
/// digit, nothing else, and a value within the 64-bit signed range.
pub open spec fn spec_parse_i64(s: Seq<char>) -> Option<i64> {
    let negative = s.len() > 0 && s[0] == '-';
    let signed = negative || (s.len() > 0 && s[0] == '+');
    let digits = if signed {
        s.skip(1)
    } else {
        s
    };
    if digits.len() == 0 || !spec_all_digits(digits) {
        None
    } else {
        let mag = spec_digits_val(digits);
        if negative {
            if -mag >= i64::MIN {
                Some((-mag) as i64)
            } else {
                None
            }
        } else {
            if mag <= i64::MAX {
                Some(mag as i64)
            } else {
                None
            }
        }
    }
}

pub open spec fn spec_parse_i32(s: Seq<char>) -> Option<i32> {
    match spec_parse_i64(s) {
        Some(v) => if i32::MIN <= v && v <= i32::MAX {
            Some(v as i32)
        } else {
            None
        },
        None => None,
    }
}

proof fn lemma_digits_val_nonneg(s: Seq<char>)
    requires
        spec_all_digits(s),
    ensures
        spec_digits_val(s) >= 0,
    decreases s.len(),
{
    if s.len() > 0 {
        assert(spec_all_digits(s.drop_last()));
        lemma_digits_val_nonneg(s.drop_last());
        assert(spec_is_digit(s.last()));
    }
}

proof fn lemma_digits_val_push(t: Seq<char>, c: char)
    ensures
        spec_digits_val(t.push(c)) == spec_digits_val(t) * 10 + spec_digit_val(c),
{
    assert(t.push(c).drop_last() =~= t);
    assert(t.push(c).last() == c);
}

/// A prefix of a digit string never denotes more than the whole string.
proof fn lemma_digits_val_prefix_le(s: Seq<char>, j: int)
    requires
        spec_all_digits(s),
        0 <= j <= s.len(),
    ensures
        spec_digits_val(s.take(j)) <= spec_digits_val(s),
    decreases s.len() - j,
{
    if j < s.len() {
        let t = s.take(j + 1);
        assert(t.drop_last() =~= s.take(j));
        assert(spec_is_digit(t.last()));
        assert(spec_all_digits(s.take(j)));
        lemma_digits_val_nonneg(s.take(j));
        assert(spec_digits_val(t) == spec_digits_val(s.take(j)) * 10 + spec_digit_val(t.last()));
        assert(spec_digits_val(s.take(j)) <= spec_digits_val(t));
        lemma_digits_val_prefix_le(s, j + 1);
        assert(s.take(s.len() as int) =~= s);
    } else {
        assert(s.take(j) =~= s);
    }
}

/// Parses decimal text as a 64-bit id, exactly as `spec_parse_i64` reads it.
pub fn parse_i64(s: &str) -> (r: Option<i64>)
    ensures
        r == spec_parse_i64(s@),
{
    let n: usize = s.unicode_len();
    if n == 0 {
        return None;
    }
    let first: char = s.get_char(0);
    let negative: bool = first == '-';
    let signed: bool = negative || first == '+';
    let start: usize = if signed {
        1
    } else {
        0
    };
    let ghost digits: Seq<char> = if signed {
        s@.skip(1)
    } else {
        s@
    };
    if start >= n {
        assert(digits.len() == 0);
        return None;
    }
    let mut mag: u64 = 0;
    let mut i: usize = start;
    while i < n
        invariant
            start <= i <= n,
            start < n,
            n == s@.len(),
            negative == (s@.len() > 0 && s@[0] == '-'),
            signed == (negative || (s@.len() > 0 && s@[0] == '+')),
            signed ==> start == 1,
            !signed ==> start == 0,
            digits == if signed {
                s@.skip(1)
            } else {
                s@
            },
            spec_all_digits(digits.take(i - start)),
            mag == spec_digits_val(digits.take(i - start)),
            mag <= 9223372036854775808u64,
        decreases n - i,
    {
        let c: char = s.get_char(i);
        let cv: u32 = c as u32;
        proof {
            assert(digits[i - start] == c);
        }
        if cv < 48 || cv > 57 {
            proof {
                assert(!spec_is_digit(digits[i - start]));
                assert(!spec_all_digits(digits));
            }
            return None;
        }
        let d: u64 = (cv - 48) as u64;
        let cutoff: u64 = (9223372036854775808u64 - d) / 10;
        proof {
            let t = 9223372036854775808int;
            vstd::arithmetic::div_mod::lemma_fundamental_div_mod(t - d, 10);
        }
        if mag > cutoff {
            // the magnitude would pass the 64-bit signed range: whatever
            // digits remain, the denoted value is out of range
            proof {
                let k: int = i - start;
                assert(digits.take(k + 1) =~= digits.take(k).push(digits[k]));
                lemma_digits_val_push(digits.take(k), digits[k]);
                assert(spec_digits_val(digits.take(k + 1)) > 9223372036854775808int);
                if spec_all_digits(digits) {
                    lemma_digits_val_prefix_le(digits, k + 1);
                    assert(spec_digits_val(digits) > 9223372036854775808int);
                }
            }
            return None;
        }
        proof {
            let k: int = i - start;
            assert(digits.take(k + 1) =~= digits.take(k).push(digits[k]));
            lemma_digits_val_push(digits.take(k), digits[k]);
        }
        mag = mag * 10 + d;
        i = i + 1;
    }
    proof {
        assert(digits.take(n - start) =~= digits);
    }
    if negative {
        if mag == 9223372036854775808u64 {
            Some(i64::MIN)
        } else {
            Some(-(mag as i64))
        }
    } else {
        if mag > 9223372036854775807u64 {
            None
        } else {
            Some(mag as i64)
        }
    }
}

/// Parses decimal text as a user id.
pub fn parse_i32(s: &str) -> (r: Option<i32>)
    ensures
        r == spec_parse_i32(s@),
{
    match parse_i64(s) {
        Some(v) => {
            if i32::MIN as i64 <= v && v <= i32::MAX as i64 {
                Some(v as i32)
            } else {
                None
            }
        },
        None => None,
    }
}

proof fn lemma_digit_char_val(d: int)
    requires
        0 <= d < 10,
    ensures
        spec_is_digit(spec_digit_char(d)),
        spec_digit_val(spec_digit_char(d)) == d,
{
    if d == 0 {
        assert('0' as int == 48);
    } else if d == 1 {
        assert('1' as int == 49);
    } else if d == 2 {
        assert('2' as int == 50);
    } else if d == 3 {
        assert('3' as int == 51);
    } else if d == 4 {
        assert('4' as int == 52);
    } else if d == 5 {
        assert('5' as int == 53);
    } else if d == 6 {
        assert('6' as int == 54);
    } else if d == 7 {
        assert('7' as int == 55);
    } else if d == 8 {
        assert('8' as int == 56);
    } else {
        assert('9' as int == 57);
    }
}

proof fn lemma_nat_digits_are_digits(n: nat)
    ensures
        spec_nat_digits(n).len() > 0,
        spec_all_digits(spec_nat_digits(n)),
    decreases n,
{
    if n >= 10 {
        lemma_nat_digits_are_digits((n / 10) as nat);
        let prefix = spec_nat_digits((n / 10) as nat);
        let whole = spec_nat_digits(n);
        assert(whole == prefix.push(spec_digit_char((n % 10) as int)));
        assert forall|i: int| 0 <= i < whole.len() implies spec_is_digit(#[trigger] whole[i]) by {
            if i < prefix.len() {
                assert(whole[i] == prefix[i]);
            }
        }
    }
}

proof fn lemma_nat_digits_val(n: nat)
    ensures
        spec_digits_val(spec_nat_digits(n)) == n,
    decreases n,
{
    if n >= 10 {
        lemma_nat_digits_val((n / 10) as nat);
        let prefix = spec_nat_digits((n / 10) as nat);
        lemma_digit_char_val((n % 10) as int);
        let c = spec_digit_char((n % 10) as int);
        lemma_digits_val_push(prefix, c);
        assert(spec_nat_digits(n) == prefix.push(c));
        assert(spec_digits_val(prefix) == n / 10);
        assert(spec_digits_val(prefix.push(c)) == (n / 10) * 10 + (n % 10));
        vstd::arithmetic::div_mod::lemma_fundamental_div_mod(n as int, 10);
        assert(n == 10 * (n / 10) + n % 10);
    } else {
        lemma_digit_char_val(n as int);
        let c = spec_digit_char(n as int);
        let s = seq![c];
        assert(spec_nat_digits(n) == s);
        assert(s.drop_last() =~= Seq::<char>::empty());
        assert(s.last() == c);
        assert(spec_digits_val(s.drop_last()) == 0);
        assert(spec_digits_val(s) == spec_digit_val(c));
    }
}

/// Formatting an id and parsing the text gives the id back: cursors and
/// string-borne ids survive the trip through their textual form.
pub proof fn lemma_format_parse_round_trip(n: i64)
    ensures
        spec_parse_i64(spec_i64_string(n as int)) == Some(n),
{
    if n >= 0 {
        let s = spec_nat_digits(n as nat);
        lemma_nat_digits_are_digits(n as nat);
        lemma_nat_digits_val(n as nat);
        assert(spec_is_digit(s[0]));
        assert(s[0] as int != 45 && s[0] as int != 43);
        assert(s[0] != '-' && s[0] != '+');
        assert(spec_digits_val(s) == n);
    } else {
        let mag: nat = (-(n as int)) as nat;
        let ds = spec_nat_digits(mag);
        let s = seq!['-'] + ds;
        lemma_nat_digits_are_digits(mag);
        lemma_nat_digits_val(mag);
        assert(s[0] == '-');
        assert(s.skip(1) =~= ds);
        assert(spec_digits_val(ds) == mag);
        assert(-(mag as int) == n as int);
    }
}

} // verus!
