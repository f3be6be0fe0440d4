use vstd::prelude::*;

verus! {

/// Why a hexadecimal text could not be decoded.
#[derive(Clone, Copy, Debug, PartialEq, Eq, Structural)]
pub enum HexError {
    /// The byte is not one of `0-9`, `a-f`, `A-F`.
    InvalidHexCharacter(u8),
}

/// The value of a hexadecimal digit, if the byte is one.
pub open spec fn spec_hex_value(b: u8) -> Option<u8> {
    if 48 <= b <= 57 {
        Some((b - 48) as u8)
    } else if 97 <= b <= 102 {
        Some((b - 87) as u8)
    } else if 65 <= b <= 70 {
        Some((b - 55) as u8)
    } else {
        None
    }
}

/// The lower-case hexadecimal digit of a value below sixteen.
pub open spec fn spec_hex_digit(n: u8) -> u8
    recommends
        n < 16,
{
    if n < 10 {
        (48 + n) as u8
    } else {
        (87 + n) as u8
    }
}

/// Decodes pairs of hexadecimal digits into bytes, high digit first. A trailing
/// unpaired byte is ignored. Fails with the first byte, in order, that is not a
/// hexadecimal digit.
pub open spec fn spec_hex_decode(s: Seq<u8>) -> Result<Seq<u8>, HexError>
    decreases s.len(),
{
    if s.len() < 2 {
        Ok(seq![])
    } else {
        match (spec_hex_value(s[0]), spec_hex_value(s[1])) {
            (None, _) => Err(HexError::InvalidHexCharacter(s[0])),
            (Some(_), None) => Err(HexError::InvalidHexCharacter(s[1])),
            (Some(h), Some(l)) => match spec_hex_decode(s.skip(2)) {
                Ok(rest) => Ok(seq![(h * 16 + l) as u8] + rest),
                Err(e) => Err(e),
            },
        }
    }
}

/// Encodes each byte as two lower-case hexadecimal digits, high digit first.
pub open spec fn spec_hex_encode(s: Seq<u8>) -> Seq<u8>
    decreases s.len(),
{
    if s.len() == 0 {
        seq![]
    } else {
        seq![spec_hex_digit(s[0] / 16), spec_hex_digit(s[0] % 16)] + spec_hex_encode(s.drop_first())
    }
}

/// Puts decoded bytes in front of the result of decoding the rest.
pub open spec fn prepend_decoded(prefix: Seq<u8>, r: Result<Seq<u8>, HexError>) -> Result<
    Seq<u8>,
    HexError,
> {
    match r {
        Ok(rest) => Ok(prefix + rest),
        Err(e) => Err(e),
    }
}

/// The value of a hexadecimal digit.
pub fn hex_value(byte: u8) -> (r: Result<u8, HexError>)
    ensures
        match spec_hex_value(byte) {
            Some(v) => r == Ok::<u8, HexError>(v),
            None => r == Err::<u8, HexError>(HexError::InvalidHexCharacter(byte)),
        },
        r matches Ok(v) ==> v < 16,
{
    if 48u8 <= byte && byte <= 57u8 {
        Ok(byte - 48u8)
    } else if 97u8 <= byte && byte <= 102u8 {
        Ok(byte - 97u8 + 10)
    } else if 65u8 <= byte && byte <= 70u8 {
        Ok(byte - 65u8 + 10)
    } else {
        Err(HexError::InvalidHexCharacter(byte))
    }
}

/// Decodes a hexadecimal text into bytes.
pub fn hex_to_bytes(hex_message: &[u8]) -> (r: Result<Vec<u8>, HexError>)
    ensures
        match spec_hex_decode(hex_message@) {
            Ok(b) => r matches Ok(v) && v@ == b,
            Err(e) => r == Err::<Vec<u8>, HexError>(e),
        },
{
    let n = hex_message.len();
    let mut decoded: Vec<u8> = Vec::with_capacity(n / 2);
    let mut i: usize = 0;
    assert(hex_message@.skip(0) =~= hex_message@);
    while i + 1 < n
        invariant
            n == hex_message@.len(),
            i % 2 == 0,
            i <= n,
            spec_hex_decode(hex_message@) == prepend_decoded(
                decoded@,
                spec_hex_decode(hex_message@.skip(i as int)),
            ),
        decreases n - i,
    {
        let ghost rest = hex_message@.skip(i as int);
        assert(rest[0] == hex_message@[i as int]);
        assert(rest[1] == hex_message@[i + 1]);
        assert(rest.skip(2) =~= hex_message@.skip(i + 2));
        let high = hex_value(hex_message[i])?;
        let low = hex_value(hex_message[i + 1])?;
        let byte = (high << 4) | low;
        assert(byte == (high * 16 + low) as u8) by (bit_vector)
            requires
                high < 16,
                low < 16,
                byte == (high << 4) | low,
        ;
        proof {
            assert(decoded@.push(byte) =~= decoded@ + seq![byte]);
            match spec_hex_decode(hex_message@.skip(i + 2)) {
                Ok(tail) => {
                    assert(decoded@ + (seq![byte] + tail) =~= decoded@.push(byte) + tail);
                },
                Err(_) => {},
            }
        }
        decoded.push(byte);
        i = i + 2;
    }
    assert(hex_message@.skip(i as int).len() < 2);
    assert(decoded@ + seq![] =~= decoded@);
    Ok(decoded)
}

/// The lower-case hexadecimal digit of a value below sixteen.
pub fn hex_digit(n: u8) -> (d: u8)
    requires
        n < 16,
    ensures
        d == spec_hex_digit(n),
{
    if n < 10 {
        48u8 + n
    } else {
        97u8 + (n - 10)
    }
}

/// Encodes bytes as lower-case hexadecimal text, two digits per byte.
pub fn bytes_to_hex(message: &[u8]) -> (r: Vec<u8>)
    requires
        message@.len() * 2 <= usize::MAX,
    ensures
        r@ == spec_hex_encode(message@),
{
    let n = message.len();
    let mut out: Vec<u8> = Vec::with_capacity(n * 2);
    let mut i: usize = 0;
    assert(message@.skip(0) =~= message@);
    while i < n
        invariant
            n == message@.len(),
            i <= n,
            spec_hex_encode(message@) == out@ + spec_hex_encode(message@.skip(i as int)),
        decreases n - i,
    {
        let byte = message[i];
        let ghost rest = message@.skip(i as int);
        assert(rest[0] == byte);
        assert(rest.drop_first() =~= message@.skip(i + 1));
        let hi = hex_digit(byte / 16);
        let lo = hex_digit(byte % 16);
        let ghost before = out@;
        out.push(hi);
        out.push(lo);
        assert(before + spec_hex_encode(rest) =~= out@ + spec_hex_encode(message@.skip(i + 1)));
        i = i + 1;
    }
    assert(message@.skip(n as int) =~= Seq::<u8>::empty());
    assert(out@ + seq![] =~= out@);
    out
}

/// Decoding the hexadecimal text of some bytes gives back those bytes.
pub proof fn lemma_hex_roundtrip(s: Seq<u8>)
    ensures
        spec_hex_decode(spec_hex_encode(s)) == Ok::<Seq<u8>, HexError>(s),
    decreases s.len(),
{
    if s.len() > 0 {
        let b = s[0];
        let e = spec_hex_encode(s);
        let h = spec_hex_digit(b / 16);
        let l = spec_hex_digit(b % 16);
        assert(e[0] == h);
        assert(e[1] == l);
        assert(e.skip(2) =~= spec_hex_encode(s.drop_first()));
        lemma_hex_roundtrip(s.drop_first());
        assert(spec_hex_value(h) == Some((b / 16) as u8));
        assert(spec_hex_value(l) == Some((b % 16) as u8));
        assert(((b / 16) as u8 * 16 + (b % 16) as u8) as u8 == b);
        assert(seq![b] + s.drop_first() =~= s);
    } else {
        assert(s =~= seq![]);
    }
}

/// The hexadecimal text of `n` bytes is `2 n` bytes long.
pub proof fn lemma_hex_encode_len(s: Seq<u8>)
    ensures
        spec_hex_encode(s).len() == 2 * s.len(),
    decreases s.len(),
{
    if s.len() > 0 {
        lemma_hex_encode_len(s.drop_first());
    }
}

/// The bytes of a hexadecimal text pair by pair: with `n` the number of
/// whole pairs, decoding succeeds exactly where the first `2 n` bytes are all
/// hexadecimal digits, and then gives `n` bytes, the `i`-th being sixteen
/// times the value of byte `2 i` plus that of byte `2 i + 1`; it fails with
/// the first of those bytes that is no digit.
pub proof fn lemma_hex_decode_pairs(s: Seq<u8>)
    ensures
        (spec_hex_decode(s) is Ok) == (forall|j: int|
            0 <= j < 2 * (s.len() / 2) ==> (#[trigger] spec_hex_value(s[j])) is Some),
        spec_hex_decode(s) matches Ok(b) ==> b.len() == s.len() / 2 && forall|i: int|
            0 <= i < b.len() ==> #[trigger] b[i] == (spec_hex_value(s[2 * i])->0 * 16
                + spec_hex_value(s[2 * i + 1])->0) as u8,
        spec_hex_decode(s) matches Err(HexError::InvalidHexCharacter(c)) ==> exists|j: int|
            0 <= j < 2 * (s.len() / 2) && s[j] == c && spec_hex_value(s[j]) is None && forall|k: int|
                0 <= k < j ==> (#[trigger] spec_hex_value(s[k])) is Some,
    decreases s.len(),
{
    if s.len() >= 2 {
        let t = s.skip(2);
        lemma_hex_decode_pairs(t);
        assert(t.len() / 2 == s.len() / 2 - 1);
        assert forall|j: int| 0 <= j < t.len() implies t[j] == s[j + 2] by {}
        match (spec_hex_value(s[0]), spec_hex_value(s[1])) {
            (None, _) => {
                assert(0 < 2 * (s.len() / 2));
            },
            (Some(_), None) => {
                assert(1 < 2 * (s.len() / 2));
                assert(spec_hex_value(s[0]) is Some);
            },
            (Some(h), Some(l)) => {
                if spec_hex_decode(t) is Ok {
                    assert forall|j: int| 0 <= j < 2 * (s.len() / 2) implies (#[trigger] spec_hex_value(
                        s[j],
                    )) is Some by {
                        if j >= 2 {
                            assert(s[j] == t[j - 2]);
                            assert(spec_hex_value(t[j - 2]) is Some);
                        }
                    }
                    let rest = spec_hex_decode(t)->Ok_0;
                    let b = spec_hex_decode(s)->Ok_0;
                    assert forall|i: int| 0 <= i < b.len() implies #[trigger] b[i] == (spec_hex_value(
                        s[2 * i],
                    )->0 * 16 + spec_hex_value(s[2 * i + 1])->0) as u8 by {
                        if i > 0 {
                            assert(b[i] == rest[i - 1]);
                            assert(s[2 * i] == t[2 * (i - 1)]);
                            assert(s[2 * i + 1] == t[2 * (i - 1) + 1]);
                        }
                    }
                } else {
                    let j0 = choose|j: int|
                        0 <= j < 2 * (t.len() / 2) && spec_hex_value(t[j]) is None;
                    assert(spec_hex_value(s[j0 + 2]) is None);
                    if let Err(HexError::InvalidHexCharacter(c)) = spec_hex_decode(t) {
                        let j = choose|j: int|
                            0 <= j < 2 * (t.len() / 2) && t[j] == c && spec_hex_value(t[j]) is None
                                && forall|k: int| 0 <= k < j ==> (#[trigger] spec_hex_value(t[k])) is Some;
                        assert(s[j + 2] == c);
                        assert forall|k: int| 0 <= k < j + 2 implies (#[trigger] spec_hex_value(
                            s[k],
                        )) is Some by {
                            if k >= 2 {
                                assert(s[k] == t[k - 2]);
                            }
                        }
                    }
                }
            },
        }
    }
}

/// The byte with an ASCII capital letter made lower-case; any other byte as
/// it is.
pub open spec fn ascii_lower(b: u8) -> u8 {
    if 65 <= b <= 90 {
        (b + 32) as u8
    } else {
        b
    }
}

/// The byte with an ASCII lower-case letter made a capital; any other byte
/// as it is.
pub open spec fn ascii_upper(b: u8) -> u8 {
    if 97 <= b <= 122 {
        (b - 32) as u8
    } else {
        b
    }
}

/// Hexadecimal digits are read without regard to case: a byte and its
/// lower-case and capital forms are all the same digit, or all no digit.
/// Every digit is written back, by the encoder, as its lower-case form, and
/// the digits written are the sixteen values in order.
pub proof fn lemma_hex_digits_ignore_case(b: u8)
    ensures
        spec_hex_value(b) == spec_hex_value(ascii_lower(b)),
        spec_hex_value(b) == spec_hex_value(ascii_upper(b)),
        spec_hex_value(b) matches Some(v) ==> v < 16 && spec_hex_digit(v) == ascii_lower(b),
        b < 16 ==> spec_hex_value(spec_hex_digit(b)) == Some(b),
{
}

/// Decoding the capital-letter hexadecimal text of some bytes gives back
/// those bytes, as decoding the lower-case text does.
pub proof fn lemma_hex_roundtrip_upper_case(s: Seq<u8>)
    ensures
        spec_hex_decode(spec_hex_encode(s).map_values(|c: u8| ascii_upper(c))) == Ok::<
            Seq<u8>,
            HexError,
        >(s),
    decreases s.len(),
{
    let up = |c: u8| ascii_upper(c);
    let e = spec_hex_encode(s);
    let u = e.map_values(up);
    if s.len() > 0 {
        let b = s[0];
        let h = spec_hex_digit(b / 16);
        let l = spec_hex_digit(b % 16);
        assert(e[0] == h);
        assert(e[1] == l);
        lemma_hex_encode_len(s);
        assert(u.skip(2) =~= spec_hex_encode(s.drop_first()).map_values(up)) by {
            assert(e.skip(2) =~= spec_hex_encode(s.drop_first()));
        }
        lemma_hex_roundtrip_upper_case(s.drop_first());
        lemma_hex_digits_ignore_case((b / 16) as u8);
        lemma_hex_digits_ignore_case((b % 16) as u8);
        lemma_hex_digits_ignore_case(h);
        lemma_hex_digits_ignore_case(l);
        assert(u[0] == ascii_upper(h) && u[1] == ascii_upper(l));
        assert(spec_hex_value(u[0]) == Some((b / 16) as u8));
        assert(spec_hex_value(u[1]) == Some((b % 16) as u8));
        assert(((b / 16) as u8 * 16 + (b % 16) as u8) as u8 == b);
        assert(seq![b] + s.drop_first() =~= s);
    } else {
        assert(u =~= Seq::<u8>::empty());
        assert(s =~= seq![]);
    }
}

} // verus!
