//! Decimal text for the integer scalar adapters: formatting a value into
//! the digits the serializer writes, and parsing the digits the
//! deserializer reads, with the usual optional leading sign.

use vstd::prelude::*;
use vstd::string::StringExecFns;
use crate::entity::push_char;

verus! {

/// The digit character for one value below ten.
pub open spec fn dec_digit(d: int) -> char {
    if d == 0 {
        '0'
    } else if d == 1 {
        '1'
    } else if d == 2 {
        '2'
    } else if d == 3 {
        '3'
    } else if d == 4 {
        '4'
    } else if d == 5 {
        '5'
    } else if d == 6 {
        '6'
    } else if d == 7 {
        '7'
    } else if d == 8 {
        '8'
    } else {
        '9'
    }
}

/// The decimal digits of a nonnegative value, most significant first.
pub open spec fn u64_text(n: int) -> Seq<char>
    decreases n,
{
    if n < 10 {
        seq![dec_digit(n)]
    } else {
        u64_text(n / 10).push(dec_digit(n % 10))
    }
}

/// The decimal text of a possibly negative value.
pub open spec fn int_text(v: int) -> Seq<char> {
    if v < 0 {
        seq!['-'] + u64_text(-v)
    } else {
        u64_text(v)
    }
}

/// Whether `c` is a decimal digit.
pub open spec fn is_digit(c: char) -> bool {
    48 <= (c as u32) && (c as u32) <= 57
}

/// The value of one digit character.
pub open spec fn digit_val(c: char) -> int {
    (c as u32) - 48
}

/// Whether `s` is one or more digits and nothing else.
pub open spec fn all_digits(s: Seq<char>) -> bool {
    s.len() > 0 && forall|i: int| 0 <= i < s.len() ==> is_digit(#[trigger] s[i])
}

/// The value of a digit string, most significant digit first.
pub open spec fn digits_val(s: Seq<char>) -> int
    decreases s.len(),
{
    if s.len() == 0 {
        0
    } else {
        digits_val(s.drop_last()) * 10 + digit_val(s.last())
    }
}

/// What parsing an unsigned 64-bit decimal yields: an optional leading
/// `+`, then digits, rejected when empty, non-numeric or out of range.
pub open spec fn parse_u64_spec(s: Seq<char>) -> Option<int> {
    let b = if s.len() > 0 && s[0] == '+' {
        s.drop_first()
    } else {
        s
    };
    if all_digits(b) && digits_val(b) <= 0xffffffffffffffff {
        Some(digits_val(b))
    } else {
        None
    }
}

/// What parsing a signed 64-bit decimal yields: an optional leading `+`
/// or `-`, then digits, rejected when empty, non-numeric or out of range.
pub open spec fn parse_i64_spec(s: Seq<char>) -> Option<int> {
    if s.len() > 0 && s[0] == '-' {
        let b = s.drop_first();
        if all_digits(b) && digits_val(b) <= 0x8000000000000000 {
            Some(-digits_val(b))
        } else {
            None
        }
    } else {
        let b = if s.len() > 0 && s[0] == '+' {
            s.drop_first()
        } else {
            s
        };
        if all_digits(b) && digits_val(b) <= 0x7fffffffffffffff {
            Some(digits_val(b))
        } else {
            None
        }
    }
}

fn dec_digit_exec(d: u64) -> (c: char)
    requires
        d < 10,
    ensures
        c == dec_digit(d as int),
{
    if d == 0 {
        '0'
    } else if d == 1 {
        '1'
    } else if d == 2 {
        '2'
    } else if d == 3 {
        '3'
    } else if d == 4 {
        '4'
    } else if d == 5 {
        '5'
    } else if d == 6 {
        '6'
    } else if d == 7 {
        '7'
    } else if d == 8 {
        '8'
    } else {
        '9'
    }
}

fn is_digit_exec(c: char) -> (r: bool)
    ensures
        r == is_digit(c),
{
    let u = c as u32;
    48 <= u && u <= 57
}

/// Formats a value as its decimal digits.
pub fn u64_to_string(n: u64) -> (r: String)
    ensures
        r@ == u64_text(n as int),
{
    let mut digits: Vec<char> = Vec::new();
    let mut m = n;
    if m == 0 {
        let mut out = String::new();
        push_char(&mut out, '0');
        proof {
            assert(out@ =~= u64_text(0));
        }
        return out;
    }
    while m > 0
        invariant
            m > 0 ==> u64_text(n as int) == u64_text(m as int) + digits@.reverse(),
            m == 0 ==> u64_text(n as int) == digits@.reverse(),
        decreases m,
    {
        let d = m % 10;
        let ghost old_m = m as int;
        let ghost old_digits = digits@;
        digits.push(dec_digit_exec(d));
        m = m / 10;
        proof {
            assert(digits@.reverse() =~= seq![dec_digit(old_m % 10)] + old_digits.reverse());
            if old_m < 10 {
                assert(u64_text(old_m) == seq![dec_digit(old_m)]);
                assert(old_m % 10 == old_m);
                assert(u64_text(old_m) + old_digits.reverse() =~= digits@.reverse());
            } else {
                assert(u64_text(old_m) == u64_text(old_m / 10).push(dec_digit(old_m % 10)));
                assert(u64_text(old_m / 10).push(dec_digit(old_m % 10)) + old_digits.reverse()
                    =~= u64_text(old_m / 10) + digits@.reverse());
            }
        }
    }
    let k = digits.len();
    let mut out = String::new();
    let mut i: usize = 0;
    proof {
        assert(out@ =~= digits@.reverse().take(0));
    }
    while i < k
        invariant
            i <= k,
            k == digits@.len(),
            u64_text(n as int) == digits@.reverse(),
            out@ == digits@.reverse().take(i as int),
        decreases k - i,
    {
        push_char(&mut out, digits[k - 1 - i]);
        proof {
            assert(digits@.reverse()[i as int] == digits@[k - 1 - i]);
            assert(digits@.reverse().take(i + 1 as int) =~= digits@.reverse().take(i as int).push(
                digits@[k - 1 - i],
            ));
        }
        i = i + 1;
    }
    proof {
        assert(digits@.reverse().take(k as int) =~= digits@.reverse());
    }
    out
}

/// Formats a signed value as decimal text, with `-` when negative.
pub fn i64_to_string(v: i64) -> (r: String)
    ensures
        r@ == int_text(v as int),
{
    if v >= 0 {
        u64_to_string(v as u64)
    } else {
        let abs: u64 = (-(v as i128)) as u64;
        let mut out = String::new();
        push_char(&mut out, '-');
        let digits = u64_to_string(abs);
        out.append(digits.as_str());
        proof {
            assert(out@ =~= seq!['-'] + u64_text(-(v as int)));
        }
        out
    }
}

proof fn lemma_digits_val_nonneg(s: Seq<char>)
    requires
        forall|i: int| 0 <= i < s.len() ==> is_digit(#[trigger] s[i]),
    ensures
        digits_val(s) >= 0,
    decreases s.len(),
{
    if s.len() > 0 {
        assert(forall|i: int|
            0 <= i < s.drop_last().len() ==> is_digit(#[trigger] s.drop_last()[i]));
        lemma_digits_val_nonneg(s.drop_last());
        assert(digit_val(s.last()) >= 0);
        assert(digits_val(s.drop_last()) * 10 >= 0) by (nonlinear_arith)
            requires
                digits_val(s.drop_last()) >= 0,
        ;
    }
}

proof fn lemma_digits_val_mono(s: Seq<char>, j: int)
    requires
        0 <= j <= s.len(),
        forall|i: int| 0 <= i < s.len() ==> is_digit(#[trigger] s[i]),
    ensures
        digits_val(s.take(j)) <= digits_val(s),
    decreases s.len() - j,
{
    if j < s.len() {
        let t = s.drop_last();
        assert(forall|i: int| 0 <= i < t.len() ==> is_digit(#[trigger] t[i]));
        lemma_digits_val_nonneg(t);
        assert(digits_val(t) * 10 >= digits_val(t)) by (nonlinear_arith)
            requires
                digits_val(t) >= 0,
        ;
        assert(digit_val(s.last()) >= 0);
        assert(s.take(j) =~= t.take(j));
        lemma_digits_val_mono(t, j);
    } else {
        assert(s.take(j) =~= s);
    }
}

/// Parses the digit run of `s` from `start` to the end.
fn parse_digits(s: &str, start: usize) -> (r: Option<u64>)
    requires
        start <= s@.len(),
    ensures
        ({
            let b = s@.skip(start as int);
            &&& (r is Some <==> all_digits(b) && digits_val(b) <= 0xffffffffffffffff)
            &&& (r matches Some(x) ==> x as int == digits_val(b))
        }),
{
    let ghost b = s@.skip(start as int);
    let n = s.unicode_len();
    if start == n {
        return None;
    }
    let mut acc: u64 = 0;
    let mut i = start;
    proof {
        assert(b.subrange(0, 0) =~= Seq::<char>::empty());
    }
    while i < n
        invariant
            start <= i <= n,
            n == s@.len(),
            b == s@.skip(start as int),
            b.len() == n - start,
            forall|j: int| start <= j < i ==> is_digit(#[trigger] s@[j]),
            acc as int == digits_val(b.take(i - start)),
        decreases n - i,
    {
        let c = s.get_char(i);
        proof {
            assert(b[i - start] == s@[i as int]);
        }
        if !is_digit_exec(c) {
            proof {
                assert(!all_digits(b));
            }
            return None;
        }
        let u = c as u32;
        let d: u64 = (u - 48) as u64;
        proof {
            assert(d < 10);
            assert(d as int == digit_val(c));
            assert(b.take(i + 1 - start).drop_last() =~= b.take(i - start));
            assert(b.take(i + 1 - start).last() == c);
        }
        if acc > (0xffffffffffffffffu64 - d) / 10 {
            proof {
                let m: int = 0xffffffffffffffff;
                assert(acc * 10 + d > m) by (nonlinear_arith)
                    requires
                        acc > (m - d) / 10,
                        0 <= d < 10,
                        acc >= 0,
                        m == 0xffffffffffffffff,
                ;
                assert(digits_val(b.take(i + 1 - start)) == acc * 10 + d);
                assert(forall|j: int| 0 <= j < b.len() ==> is_digit(#[trigger] b[j]) || !all_digits(
                    b,
                ));
                if all_digits(b) {
                    lemma_digits_val_mono(b, i + 1 - start);
                    assert(digits_val(b) > m);
                }
            }
            return None;
        }
        proof {
            let m: int = 0xffffffffffffffff;
            assert(acc * 10 + d <= m) by (nonlinear_arith)
                requires
                    acc <= (m - d) / 10,
                    0 <= d < 10,
                    acc >= 0,
                    m == 0xffffffffffffffff,
            ;
        }
        acc = acc * 10 + d;
        i = i + 1;
    }
    proof {
        assert(b.take(n - start) =~= b);
        assert(all_digits(b));
    }
    Some(acc)
}

/// Parses unsigned decimal text: optional `+`, then digits.
pub fn parse_u64(s: &str) -> (r: Option<u64>)
    ensures
        match parse_u64_spec(s@) {
            Some(v) => r matches Some(x) && x as int == v,
            None => r is None,
        },
{
    let n = s.unicode_len();
    if n == 0 {
        return None;
    }
    let c = s.get_char(0);
    if c == '+' {
        let r = parse_digits(s, 1);
        proof {
            assert(s@.skip(1) == s@.drop_first());
        }
        r
    } else {
        let r = parse_digits(s, 0);
        proof {
            assert(s@.skip(0) =~= s@);
        }
        r
    }
}

/// Parses signed decimal text: optional `+` or `-`, then digits.
pub fn parse_i64(s: &str) -> (r: Option<i64>)
    ensures
        match parse_i64_spec(s@) {
            Some(v) => r matches Some(x) && x as int == v,
            None => r is None,
        },
{
    let n = s.unicode_len();
    if n == 0 {
        return None;
    }
    let c = s.get_char(0);
    if c == '-' {
        proof {
            assert(s@.skip(1) == s@.drop_first());
        }
        match parse_digits(s, 1) {
            Some(x) => {
                if x <= 0x8000000000000000u64 {
                    Some((-(x as i128)) as i64)
                } else {
                    None
                }
            },
            None => None,
        }
    } else if c == '+' {
        proof {
            assert(s@.skip(1) == s@.drop_first());
        }
        match parse_digits(s, 1) {
            Some(x) => {
                if x <= 0x7fffffffffffffffu64 {
                    Some(x as i64)
                } else {
                    None
                }
            },
            None => None,
        }
    } else {
        proof {
            assert(s@.skip(0) =~= s@);
        }
        match parse_digits(s, 0) {
            Some(x) => {
                if x <= 0x7fffffffffffffffu64 {
                    Some(x as i64)
                } else {
                    None
                }
            },
            None => None,
        }
    }
}

pub proof fn lemma_u64_text_digits(n: int)
    requires
        n >= 0,
    ensures
        all_digits(u64_text(n)),
        digits_val(u64_text(n)) == n,
        is_digit(u64_text(n)[0]),
    decreases n,
{
    if n < 10 {
        let s = u64_text(n);
        assert(s == seq![dec_digit(n)]);
        assert(is_digit(dec_digit(n)));
        assert(s.drop_last() =~= Seq::<char>::empty());
        assert(s.last() == dec_digit(n));
        assert(digit_val(dec_digit(n)) == n);
        assert(digits_val(Seq::<char>::empty()) == 0);
        assert(digits_val(s) == digits_val(s.drop_last()) * 10 + digit_val(s.last()));
    } else {
        lemma_u64_text_digits(n / 10);
        let p = u64_text(n / 10);
        let s = u64_text(n);
        assert(s == p.push(dec_digit(n % 10)));
        assert(s.drop_last() =~= p);
        assert(s.last() == dec_digit(n % 10));
        assert(digit_val(dec_digit(n % 10)) == n % 10);
        assert(digits_val(s) == (n / 10) * 10 + n % 10);
        assert((n / 10) * 10 + n % 10 == n);
        assert(forall|i: int| 0 <= i < s.len() ==> is_digit(#[trigger] s[i])) by {
            assert(forall|i: int| 0 <= i < p.len() ==> is_digit(#[trigger] p[i]));
            assert(forall|i: int| 0 <= i < s.len() ==> s[i] == (if i < p.len() {
                p[i]
            } else {
                dec_digit(n % 10)
            }));
        }
    }
}

/// Law: parsing recovers what formatting produced, for every unsigned
/// value in range; the text side of a serialize-then-deserialize round
/// trip of an unsigned scalar.
pub proof fn lemma_u64_text_parse(n: int)
    requires
        0 <= n <= 0xffffffffffffffff,
    ensures
        parse_u64_spec(u64_text(n)) == Some(n),
{
    lemma_u64_text_digits(n);
    assert(u64_text(n)[0] != '+');
}

/// Law: parsing recovers what formatting produced, for every signed
/// value in range; the text side of a serialize-then-deserialize round
/// trip of a signed scalar.
pub proof fn lemma_int_text_parse(v: int)
    requires
        -0x8000000000000000 <= v <= 0x7fffffffffffffff,
    ensures
        parse_i64_spec(int_text(v)) == Some(v),
{
    if v < 0 {
        lemma_u64_text_digits(-v);
        let s = int_text(v);
        assert(s[0] == '-');
        assert(s.drop_first() =~= u64_text(-v));
    } else {
        lemma_u64_text_digits(v);
        assert(int_text(v)[0] != '-' && int_text(v)[0] != '+');
    }
}

} // verus!
