use vstd::prelude::*;
use vstd::utf8::*;

verus! {

/// The character of a decimal digit `d` (0 to 9).
pub open spec fn digit_char(d: int) -> char {
    if d == 0 {
        '0'
    } else if d == 1 {
        '1'
    } else if d == 2 {
        '2'
    } else if d == 3 {
        '3'
    } else if d == 4 {
        '4'
    } else if d == 5 {
        '5'
    } else if d == 6 {
        '6'
    } else if d == 7 {
        '7'
    } else if d == 8 {
        '8'
    } else {
        '9'
    }
}

/// `c` is an ASCII decimal digit.
pub open spec fn is_digit(c: char) -> bool {
    '0' <= c && c <= '9'
}

/// The value of the decimal digit `c`.
pub open spec fn digit_value(c: char) -> int {
    c as int - '0' as int
}

/// The decimal numeral of `n`, without leading zeros.
pub open spec fn decimal(n: nat) -> Seq<char>
    decreases n,
{
    if n < 10 {
        seq![digit_char(n as int)]
    } else {
        decimal(n / 10).push(digit_char((n % 10) as int))
    }
}

/// The text of an integer, as `to_string` writes it: a minus sign where it
/// is negative, then the decimal numeral of its magnitude.
pub open spec fn int_text(i: int) -> Seq<char> {
    if i < 0 {
        seq!['-'] + decimal((-i) as nat)
    } else {
        decimal(i as nat)
    }
}

/// `ds` is one or more decimal digits.
pub open spec fn all_digits(ds: Seq<char>) -> bool {
    ds.len() > 0 && forall|i: int| 0 <= i < ds.len() ==> is_digit(#[trigger] ds[i])
}

/// The number that the decimal digits `ds` write.
pub open spec fn digits_value(ds: Seq<char>) -> int
    decreases ds.len(),
{
    if ds.len() == 0 {
        0
    } else {
        digits_value(ds.drop_last()) * 10 + digit_value(ds.last())
    }
}

/// The integer that a text writes, as `from_str` of an integer type reads
/// it before checking its range: an optional `+` or `-` sign, then one or
/// more decimal digits, and nothing else.
pub open spec fn parse_int(s: Seq<char>) -> Option<int> {
    if s.len() > 0 && s[0] == '-' {
        if all_digits(s.drop_first()) {
            Some(-digits_value(s.drop_first()))
        } else {
            None
        }
    } else if s.len() > 0 && s[0] == '+' {
        if all_digits(s.drop_first()) {
            Some(digits_value(s.drop_first()))
        } else {
            None
        }
    } else if all_digits(s) {
        Some(digits_value(s))
    } else {
        None
    }
}

/// The bytes of characters that are all ASCII, one byte each.
pub open spec fn ascii_bytes(cs: Seq<char>) -> Seq<u8> {
    cs.map_values(|c: char| (c as u32) as u8)
}

/// A digit's character is a digit, whose value is the digit.
pub proof fn lemma_digit_char(d: int)
    requires
        0 <= d < 10,
    ensures
        is_digit(digit_char(d)),
        digit_value(digit_char(d)) == d,
        (digit_char(d) as u32) as u8 == 48 + d,
{
}

/// The decimal numeral of `n` is digits that write `n`.
pub proof fn lemma_decimal_value(n: nat)
    ensures
        all_digits(decimal(n)),
        digits_value(decimal(n)) == n,
    decreases n,
{
    if n < 10 {
        lemma_digit_char(n as int);
        assert(decimal(n).drop_last() =~= Seq::<char>::empty());
        assert(digits_value(Seq::<char>::empty()) == 0);
        assert(digits_value(decimal(n)) == digits_value(decimal(n).drop_last()) * 10
            + digit_value(decimal(n).last()));
    } else {
        lemma_decimal_value(n / 10);
        lemma_digit_char((n % 10) as int);
        let d = decimal(n);
        assert(d.drop_last() =~= decimal(n / 10));
        assert(d.last() == digit_char((n % 10) as int));
        assert((n / 10) * 10 + n % 10 == n);
        assert(digits_value(d) == digits_value(decimal(n / 10)) * 10 + digit_value(d.last()));
        assert forall|i: int| 0 <= i < d.len() implies is_digit(#[trigger] d[i]) by {
            if i < d.len() - 1 {
                assert(d[i] == decimal(n / 10)[i]);
            }
        }
    }
}

/// Reading back the text of an integer gives the integer; the text holds no
/// line feed.
pub proof fn lemma_int_text(i: int)
    ensures
        parse_int(int_text(i)) == Some(i),
        forall|k: int| 0 <= k < int_text(i).len() ==> #[trigger] int_text(i)[k] != '\n',
{
    let t = int_text(i);
    if i < 0 {
        let m = (-i) as nat;
        lemma_decimal_value(m);
        assert(t.drop_first() =~= decimal(m));
        assert forall|k: int| 0 <= k < t.len() implies #[trigger] t[k] != '\n' by {
            if k > 0 {
                assert(t[k] == decimal(m)[k - 1]);
                assert(is_digit(decimal(m)[k - 1]));
            }
        }
    } else {
        lemma_decimal_value(i as nat);
        assert(is_digit(t[0]));
        assert forall|k: int| 0 <= k < t.len() implies #[trigger] t[k] != '\n' by {
            assert(is_digit(t[k]));
        }
    }
}

/// The UTF-8 bytes of ASCII characters are the characters' codes.
pub proof fn lemma_ascii_encode(cs: Seq<char>)
    requires
        forall|i: int| 0 <= i < cs.len() ==> (#[trigger] cs[i] as u32) < 128,
    ensures
        encode_utf8(cs) == ascii_bytes(cs),
    decreases cs.len(),
{
    if cs.len() == 0 {
        assert(ascii_bytes(cs) =~= Seq::<u8>::empty());
    } else {
        assert((cs[0] as u32) < 128);
        lemma_ascii_encode(cs.drop_first());
        let x = cs[0] as u32;
        assert(ascii_bytes(cs) =~= seq![x as u8] + ascii_bytes(cs.drop_first()));
        assert((x & 0x7F) == x) by (bit_vector)
            requires
                x < 128,
        ;
        assert(encode_scalar(x) =~= seq![x as u8]);
    }
}

/// The text of an integer is ASCII.
pub proof fn lemma_int_text_ascii(i: int)
    ensures
        forall|k: int| 0 <= k < int_text(i).len() ==> (#[trigger] int_text(i)[k] as u32) < 128,
{
    let t = int_text(i);
    lemma_int_text(i);
    if i < 0 {
        lemma_decimal_value((-i) as nat);
        assert forall|k: int| 0 <= k < t.len() implies (#[trigger] t[k] as u32) < 128 by {
            if k > 0 {
                assert(t[k] == decimal((-i) as nat)[k - 1]);
                assert(is_digit(t[k]));
            }
        }
    } else {
        lemma_decimal_value(i as nat);
        assert forall|k: int| 0 <= k < t.len() implies (#[trigger] t[k] as u32) < 128 by {
            assert(is_digit(t[k]));
        }
    }
}

/// Appends the ASCII bytes of the decimal numeral of `n`.
fn push_decimal(n: u64, out: &mut Vec<u8>)
    ensures
        final(out)@ == old(out)@ + ascii_bytes(decimal(n as nat)),
    decreases n,
{
    if n >= 10 {
        push_decimal(n / 10, out);
    }
    let d: u64 = n % 10;
    proof {
        lemma_digit_char(d as int);
    }
    out.push((48 + d) as u8);
    proof {
        if n >= 10 {
            assert(ascii_bytes(decimal(n as nat)) =~= ascii_bytes(decimal((n / 10) as nat)).push(
                (48 + d) as u8,
            ));
        } else {
            assert(ascii_bytes(decimal(n as nat)) =~= seq![(48 + d) as u8]);
        }
    }
}

/// The UTF-8 bytes of the text of an integer.
pub fn int_text_bytes(i: i64) -> (r: Vec<u8>)
    ensures
        r@ == encode_utf8(int_text(i as int)),
{
    let mut out: Vec<u8> = Vec::new();
    let wide: i128 = i as i128;
    if wide < 0 {
        out.push(45u8);
        push_decimal((-wide) as u64, &mut out);
    } else {
        push_decimal(wide as u64, &mut out);
    }
    proof {
        lemma_int_text_ascii(i as int);
        lemma_ascii_encode(int_text(i as int));
        if i < 0 {
            assert(ascii_bytes(int_text(i as int)) =~= seq![45u8] + ascii_bytes(
                decimal((-i) as nat),
            ));
        }
        assert(out@ =~= ascii_bytes(int_text(i as int)));
    }
    out
}

/// Leading digits write no more than all the digits.
proof fn lemma_digits_prefix(ds: Seq<char>, k: int)
    requires
        0 <= k <= ds.len(),
        forall|i: int| 0 <= i < ds.len() ==> is_digit(#[trigger] ds[i]),
    ensures
        0 <= digits_value(ds.take(k)) <= digits_value(ds),
    decreases ds.len() - k,
{
    if k == ds.len() {
        assert(ds.take(k) =~= ds);
        lemma_digits_nonneg(ds);
    } else {
        lemma_digits_prefix(ds, k + 1);
        assert(ds.take(k + 1).drop_last() =~= ds.take(k));
        assert(is_digit(ds[k]));
        lemma_digits_nonneg(ds.take(k));
    }
}

/// Digits write a number of at least zero.
proof fn lemma_digits_nonneg(ds: Seq<char>)
    requires
        forall|i: int| 0 <= i < ds.len() ==> is_digit(#[trigger] ds[i]),
    ensures
        digits_value(ds) >= 0,
    decreases ds.len(),
{
    if ds.len() > 0 {
        assert(is_digit(ds[ds.len() - 1]));
        lemma_digits_nonneg(ds.drop_last());
    }
}

/// The number that the digits `cs[from..]` write, where it is at most
/// `limit`; `None` where a character there is not a digit, there are none,
/// or the number is larger.
fn digits_at_most(cs: &Vec<char>, from: usize, limit: u64) -> (r: Option<u64>)
    requires
        from <= cs@.len(),
    ensures
        match r {
            Some(v) => all_digits(cs@.skip(from as int)) && v == digits_value(cs@.skip(from as int))
                && v <= limit,
            None => !all_digits(cs@.skip(from as int)) || digits_value(cs@.skip(from as int))
                > limit,
        },
{
    let ghost ds = cs@.skip(from as int);
    if from == cs.len() {
        return None;
    }
    let mut i: usize = from;
    let mut acc: u64 = 0;
    while i < cs.len()
        invariant
            from <= i <= cs@.len(),
            ds == cs@.skip(from as int),
            acc <= limit,
            acc == digits_value(ds.take(i - from)),
            forall|j: int| 0 <= j < i - from ==> is_digit(#[trigger] ds[j]),
        decreases cs@.len() - i,
    {
        let c = cs[i];
        if !('0' <= c && c <= '9') {
            proof {
                assert(ds[i - from] == c);
            }
            return None;
        }
        let d = (c as u32 - 48) as u64;
        proof {
            assert(ds[i - from] == c);
            assert(ds.take(i - from + 1).drop_last() =~= ds.take(i - from));
            assert(ds.take(i - from + 1).last() == c);
        }
        if d > limit || acc > (limit - d) / 10 {
            proof {
                if d <= limit {
                    let q = (limit - d) / 10;
                    assert(acc * 10 + d > limit) by (nonlinear_arith)
                        requires
                            acc > q,
                            q == (limit - d) / 10,
                            d <= limit,
                    ;
                }
                if all_digits(ds) {
                    lemma_digits_prefix(ds, i - from + 1);
                }
            }
            return None;
        }
        proof {
            let q = (limit - d) / 10;
            assert(acc * 10 + d <= limit) by (nonlinear_arith)
                requires
                    acc <= q,
                    q == (limit - d) / 10,
                    d <= limit,
            ;
        }
        acc = acc * 10 + d;
        i = i + 1;
    }
    proof {
        assert(ds.take(i - from) =~= ds);
    }
    Some(acc)
}

/// The integer that a text writes, where it lies in `lo..=hi`: what
/// `from_str` of an integer type with that range gives.
pub fn parse_int_in(s: &str, lo: i64, hi: i64) -> (r: Option<i64>)
    requires
        lo <= 0 <= hi,
    ensures
        r == (match parse_int(s@) {
            Some(v) => if lo <= v <= hi {
                Some(v as i64)
            } else {
                None
            },
            None => None,
        }),
{
    let (cs, _) = crate::strings::char_table(s);
    let ghost t = s@;
    if cs.len() > 0 && cs[0] == '-' {
        let limit: u64 = (-(lo as i128)) as u64;
        let r = digits_at_most(&cs, 1, limit);
        proof {
            assert(t.drop_first() =~= cs@.skip(1));
        }
        match r {
            Some(v) => Some((-(v as i128)) as i64),
            None => None,
        }
    } else {
        let start: usize = if cs.len() > 0 && cs[0] == '+' {
            1
        } else {
            0
        };
        let r = digits_at_most(&cs, start, hi as u64);
        proof {
            assert(t.drop_first() =~= cs@.skip(1));
            assert(t =~= cs@.skip(0));
            if start == 0 && cs@.len() > 0 {
                assert(t[0] != '+' && t[0] != '-');
            }
            if all_digits(cs@.skip(start as int)) {
                lemma_digits_nonneg(cs@.skip(start as int));
            }
        }
        match r {
            Some(v) => Some(v as i64),
            None => None,
        }
    }
}

} // verus!
