use vstd::prelude::*;
use vstd::utf8::*;
use vstd::string::*;

verus! {

/// Compares two string slices character by character.
pub fn str_eq(a: &str, b: &str) -> (r: bool)
    ensures
        r == (a@ == b@),
{
    let x = a.as_bytes();
    let y = b.as_bytes();
    proof {
        encode_utf8_decode_utf8(a@);
        encode_utf8_decode_utf8(b@);
    }
    if x.len() != y.len() {
        return false;
    }
    let mut i: usize = 0;
    while i < x.len()
        invariant
            x@ == a.spec_bytes(),
            y@ == b.spec_bytes(),
            x@.len() == y@.len(),
            i <= x@.len(),
            forall|j: int| 0 <= j < i ==> x@[j] == y@[j],
        decreases x@.len() - i,
    {
        if x[i] != y[i] {
            return false;
        }
        i = i + 1;
    }
    assert(x@ =~= y@);
    true
}

} // verus!

verus! {

/// `String::from_utf8`: succeeds exactly when the bytes are valid UTF-8, and then
/// the string's UTF-8 encoding is those bytes.
#[verifier::external_body]
pub(crate) fn string_from_utf8(bytes: Vec<u8>) -> (r: Option<String>)
    ensures
        r is Some <==> valid_utf8(bytes@),
        r matches Some(s) ==> encode_utf8(s@) == bytes@,
{
    String::from_utf8(bytes).ok()
}

/// Copies the bytes `from..to` of a slice.
pub fn copy_range(s: &[u8], from: usize, to: usize) -> (r: Vec<u8>)
    requires
        from <= to <= s@.len(),
    ensures
        r@ == s@.subrange(from as int, to as int),
{
    let mut r: Vec<u8> = Vec::with_capacity(to - from);
    let mut i = from;
    while i < to
        invariant
            from <= i <= to <= s@.len(),
            r@ == s@.subrange(from as int, i as int),
        decreases to - i,
    {
        r.push(s[i]);
        assert(r@ =~= s@.subrange(from as int, i + 1));
        i = i + 1;
    }
    r
}

/// The UTF-8 bytes of a string, as an owned vector.
pub fn str_bytes(s: &str) -> (r: Vec<u8>)
    ensures
        r@ == encode_utf8(s@),
{
    let b = s.as_bytes();
    copy_range(b, 0, b.len())
}

/// A single line feed is valid UTF-8.
pub proof fn lemma_newline_valid()
    ensures
        valid_utf8(seq![10u8]),
{
    let nl = seq![10u8];
    assert(valid_first_scalar(nl));
    assert(pop_first_scalar(nl) =~= Seq::<u8>::empty());
    assert(valid_utf8(Seq::<u8>::empty()));
}

/// Adding a line feed to some bytes does not change whether they are valid UTF-8.
pub proof fn lemma_valid_with_newline(line: Seq<u8>)
    ensures
        valid_utf8(line + seq![10u8]) <==> valid_utf8(line),
{
    let seg = line + seq![10u8];
    lemma_newline_valid();
    if valid_utf8(line) {
        valid_utf8_concat(line, seq![10u8]);
    }
    if valid_utf8(seg) {
        is_char_boundary_iff_not_is_continuation_byte(seg, line.len() as int);
        assert(seg[line.len() as int] == 10u8);
        assert(!is_continuation_byte(10u8));
        valid_utf8_split(seg, line.len() as int);
        assert(seg.subrange(0, line.len() as int) =~= line);
    }
}

} // verus!

verus! {

/// The UTF-8 bytes of a sequence of characters split into two parts are the
/// bytes of the first part followed by those of the second.
pub proof fn lemma_encode_concat(a: Seq<char>, b: Seq<char>)
    ensures
        encode_utf8(a + b) == encode_utf8(a) + encode_utf8(b),
    decreases a.len(),
{
    if a.len() == 0 {
        assert(a + b =~= b);
        assert(encode_utf8(a) =~= Seq::<u8>::empty());
        assert(Seq::<u8>::empty() + encode_utf8(b) =~= encode_utf8(b));
    } else {
        assert((a + b).drop_first() =~= a.drop_first() + b);
        assert((a + b)[0] == a[0]);
        lemma_encode_concat(a.drop_first(), b);
        assert(encode_utf8(a + b) =~= encode_scalar(a[0] as u32) + (encode_utf8(a.drop_first())
            + encode_utf8(b)));
    }
}

/// The number of UTF-8 bytes of the first `k` characters.
pub open spec fn byte_offset(s: Seq<char>, k: int) -> int {
    encode_utf8(s.take(k)).len() as int
}

/// The UTF-8 bytes of the characters `i..j` of a string are its bytes from
/// the offset of character `i` to the offset of character `j`.
pub proof fn lemma_encode_subrange(s: Seq<char>, i: int, j: int)
    requires
        0 <= i <= j <= s.len(),
    ensures
        0 <= byte_offset(s, i) <= byte_offset(s, j) <= encode_utf8(s).len(),
        encode_utf8(s.subrange(i, j)) == encode_utf8(s).subrange(
            byte_offset(s, i),
            byte_offset(s, j),
        ),
{
    assert(s.take(j) =~= s.take(i) + s.subrange(i, j));
    lemma_encode_concat(s.take(i), s.subrange(i, j));
    assert(s =~= s.take(j) + s.skip(j));
    lemma_encode_concat(s.take(j), s.skip(j));
    let e = encode_utf8(s);
    assert(encode_utf8(s.subrange(i, j)) =~= e.subrange(byte_offset(s, i), byte_offset(s, j)));
}

/// The number of UTF-8 bytes of a character.
pub fn char_width(c: char) -> (n: usize)
    ensures
        n == encode_scalar(c as u32).len(),
{
    proof {
        char_is_scalar(c);
    }
    let v = c as u32;
    if v <= 0x7F {
        1
    } else if v <= 0x7FF {
        2
    } else if v <= 0xFFFF {
        3
    } else {
        4
    }
}

/// The characters of a string, each with the byte offset where it starts;
/// the offsets end with the length of the string's UTF-8 bytes.
pub fn char_table(s: &str) -> (r: (Vec<char>, Vec<usize>))
    ensures
        r.0@ == s@,
        r.1@.len() == s@.len() + 1,
        forall|k: int| 0 <= k <= s@.len() ==> r.1@[k] == byte_offset(s@, k),
{
    broadcast use vstd::string::group_string_axioms;

    let mut chars: Vec<char> = Vec::new();
    let mut offsets: Vec<usize> = Vec::new();
    let bytes = s.as_bytes();
    let blen = bytes.len();
    let mut it = s.chars();
    let mut off: usize = 0;
    offsets.push(0);
    assert(s@.take(0) =~= Seq::<char>::empty());
    proof {
        assert(vstd::std_specs::iter::IteratorSpec::remaining(&it) == s@);
        lemma_encode_subrange(s@, 0, s@.len() as int);
        assert(s@.subrange(0, s@.len() as int) =~= s@);
    }
    loop
        invariant
            bytes@ == encode_utf8(s@),
            blen == bytes@.len(),
            chars@ == s@.take(chars@.len() as int),
            chars@.len() <= s@.len(),
            vstd::std_specs::iter::IteratorSpec::remaining(&it) == s@.skip(chars@.len() as int),
            vstd::std_specs::iter::IteratorSpec::obeys_prophetic_iter_laws(&it),
            offsets@.len() == chars@.len() + 1,
            off == byte_offset(s@, chars@.len() as int),
            forall|k: int| 0 <= k <= chars@.len() ==> offsets@[k] == byte_offset(s@, k),
        decreases s@.len() - chars@.len(),
    {
        let ghost k = chars@.len() as int;
        match it.next() {
            Some(c) => {
                proof {
                    assert(s@.skip(k).len() > 0);
                    assert(c == s@[k]);
                    assert(s@.skip(k).drop_first() =~= s@.skip(k + 1));
                    assert(s@.take(k + 1) =~= s@.take(k) + seq![c]);
                    lemma_encode_concat(s@.take(k), seq![c]);
                    assert(seq![c].drop_first() =~= Seq::<char>::empty());
                    assert(seq![c][0] == c);
                    assert(encode_utf8(Seq::<char>::empty()) =~= Seq::<u8>::empty());
                    assert(encode_utf8(seq![c]) =~= encode_scalar(c as u32) + encode_utf8(
                        Seq::<char>::empty(),
                    ));
                    assert(encode_utf8(seq![c]) =~= encode_scalar(c as u32));
                    lemma_encode_subrange(s@, 0, k + 1);
                }
                let w = char_width(c);
                assert(byte_offset(s@, k + 1) == off + w);
                assert(byte_offset(s@, k + 1) <= blen);
                off = off + w;
                chars.push(c);
                offsets.push(off);
                assert(chars@ =~= s@.take(chars@.len() as int));
            },
            None => {
                proof {
                    assert(s@.skip(k).len() == 0);
                    assert(chars@ =~= s@);
                }
                return (chars, offsets);
            },
        }
    }
}

/// The string of the characters `i..j` of `s`, given the string's UTF-8
/// bytes and character offsets.
pub fn substring(s: &str, bytes: &[u8], offsets: &Vec<usize>, i: usize, j: usize) -> (r: String)
    requires
        bytes@ == encode_utf8(s@),
        offsets@.len() == s@.len() + 1,
        forall|k: int| 0 <= k <= s@.len() ==> offsets@[k] == byte_offset(s@, k),
        i <= j <= s@.len(),
    ensures
        r@ == s@.subrange(i as int, j as int),
{
    proof {
        lemma_encode_subrange(s@, i as int, j as int);
        encode_utf8_valid_utf8(s@.subrange(i as int, j as int));
    }
    let piece = copy_range(bytes, offsets[i], offsets[j]);
    match string_from_utf8(piece) {
        Some(r) => {
            proof {
                encode_utf8_decode_utf8(r@);
                encode_utf8_decode_utf8(s@.subrange(i as int, j as int));
            }
            r
        },
        None => {
            assert(false);
            String::new()
        },
    }
}

} // verus!
