use crate::decimal::{int_text, int_text_bytes, lemma_int_text, parse_int, parse_int_in};
use crate::fields::{key_less, lemma_key_less_total, lemma_key_less_transitive, str_less};
use crate::proto::{
    encode_i32, encode_i32_delimited, encode_i64, encode_i64_delimited, encode_string,
    encode_string_delimited, length_delimited, proto_int_message, proto_string_message,
};
use crate::strings::{str_bytes, str_eq};
use vstd::prelude::*;
use vstd::utf8::encode_utf8;

verus! {

/// A message whose copies can be told apart by value.
pub trait Comparable: View + Sized {
    /// Whether two messages have the same value.
    fn same_as(&self, other: &Self) -> (r: bool)
        ensures
            r == (self@ == other@),
    ;
}

impl Comparable for i64 {
    fn same_as(&self, other: &Self) -> (r: bool) {
        *self == *other
    }
}

impl Comparable for u64 {
    fn same_as(&self, other: &Self) -> (r: bool) {
        *self == *other
    }
}

impl Comparable for String {
    fn same_as(&self, other: &Self) -> (r: bool) {
        *self == *other
    }
}

impl Comparable for Vec<u8> {
    fn same_as(&self, other: &Self) -> (r: bool) {
        if self.len() != other.len() {
            return false;
        }
        let mut i: usize = 0;
        while i < self.len()
            invariant
                self@.len() == other@.len(),
                i <= self@.len(),
                forall|j: int| 0 <= j < i ==> self@[j] == other@[j],
            decreases self@.len() - i,
        {
            if self[i] != other[i] {
                return false;
            }
            i = i + 1;
        }
        assert(self@ =~= other@);
        true
    }
}

/// The abstract values of a list of messages.
pub open spec fn values<T: View>(v: Seq<T>) -> Seq<T::V> {
    v.map_values(|m: T| m@)
}

/// A message: it has a text form (`to_string`), can be read back from text
/// (`from_str`), and has a protocol buffer encoding.
pub trait Message: View + Sized {
    /// The text of the message.
    spec fn spec_text(&self) -> Seq<char>;

    /// The message that a text reads as, by its view; `None` where it does
    /// not read as one.
    spec fn spec_parse(s: Seq<char>) -> Option<Self::V>;

    /// The UTF-8 bytes of the message's text.
    fn text_bytes(&self) -> (r: Vec<u8>)
        ensures
            r@ == encode_utf8(self.spec_text()),
    ;

    /// Reads a message from a text.
    fn parse_text(s: &str) -> (r: Option<Self>)
        ensures
            (match r {
                Some(m) => Some(m@),
                None => None,
            }) == Self::spec_parse(s@),
    ;

    /// A message whose text holds no line feed reads back from its text.
    proof fn lemma_parse_text(&self)
        requires
            forall|k: int| 0 <= k < self.spec_text().len() ==> #[trigger] self.spec_text()[k] != '\n',
        ensures
            Self::spec_parse(self.spec_text()) == Some(self@),
    ;

    /// The message's protocol buffer encoding.
    spec fn spec_proto(&self) -> Seq<u8>;

    /// The message's protocol buffer encoding.
    fn proto_bytes(&self) -> (r: Vec<u8>)
        ensures
            r@ == self.spec_proto(),
    ;

    /// The message's protocol buffer encoding, with its length in front.
    fn proto_bytes_delimited(&self) -> (r: Vec<u8>)
        ensures
            r@ == length_delimited(self.spec_proto()),
    ;
}

impl Message for String {
    open spec fn spec_text(&self) -> Seq<char> {
        self@
    }

    open spec fn spec_parse(s: Seq<char>) -> Option<Seq<char>> {
        Some(s)
    }

    fn text_bytes(&self) -> (r: Vec<u8>) {
        str_bytes(self.as_str())
    }

    fn parse_text(s: &str) -> (r: Option<String>) {
        Some(s.to_owned())
    }

    proof fn lemma_parse_text(&self) {
    }

    open spec fn spec_proto(&self) -> Seq<u8> {
        proto_string_message(self@)
    }

    fn proto_bytes(&self) -> (r: Vec<u8>) {
        encode_string(self)
    }

    fn proto_bytes_delimited(&self) -> (r: Vec<u8>) {
        encode_string_delimited(self)
    }
}

/// The integer that a text reads as, where it fits in `lo..=hi`.
pub open spec fn parse_in(s: Seq<char>, lo: int, hi: int) -> Option<int> {
    match parse_int(s) {
        Some(v) => if lo <= v <= hi {
            Some(v)
        } else {
            None
        },
        None => None,
    }
}

impl Message for i32 {
    open spec fn spec_text(&self) -> Seq<char> {
        int_text(*self as int)
    }

    open spec fn spec_parse(s: Seq<char>) -> Option<i32> {
        match parse_in(s, i32::MIN as int, i32::MAX as int) {
            Some(v) => Some(v as i32),
            None => None,
        }
    }

    fn text_bytes(&self) -> (r: Vec<u8>) {
        int_text_bytes(*self as i64)
    }

    fn parse_text(s: &str) -> (r: Option<i32>) {
        match parse_int_in(s, i32::MIN as i64, i32::MAX as i64) {
            Some(v) => Some(v as i32),
            None => None,
        }
    }

    proof fn lemma_parse_text(&self) {
        lemma_int_text(*self as int);
    }

    open spec fn spec_proto(&self) -> Seq<u8> {
        proto_int_message(*self as int)
    }

    fn proto_bytes(&self) -> (r: Vec<u8>) {
        encode_i32(*self)
    }

    fn proto_bytes_delimited(&self) -> (r: Vec<u8>) {
        encode_i32_delimited(*self)
    }
}

impl Message for i64 {
    open spec fn spec_text(&self) -> Seq<char> {
        int_text(*self as int)
    }

    open spec fn spec_parse(s: Seq<char>) -> Option<i64> {
        match parse_in(s, i64::MIN as int, i64::MAX as int) {
            Some(v) => Some(v as i64),
            None => None,
        }
    }

    fn text_bytes(&self) -> (r: Vec<u8>) {
        int_text_bytes(*self)
    }

    fn parse_text(s: &str) -> (r: Option<i64>) {
        parse_int_in(s, i64::MIN, i64::MAX)
    }

    proof fn lemma_parse_text(&self) {
        lemma_int_text(*self as int);
    }

    open spec fn spec_proto(&self) -> Seq<u8> {
        proto_int_message(*self as int)
    }

    fn proto_bytes(&self) -> (r: Vec<u8>) {
        encode_i64(*self)
    }

    fn proto_bytes_delimited(&self) -> (r: Vec<u8>) {
        encode_i64_delimited(*self)
    }
}

/// A message with a total order, in which messages can be sorted.
pub trait Ordered: View + Sized {
    /// `a` comes no later than `b` in the order.
    spec fn spec_at_most(a: Self::V, b: Self::V) -> bool;

    /// Whether this message comes no later than `other`.
    fn at_most(&self, other: &Self) -> (r: bool)
        ensures
            r == Self::spec_at_most(self@, other@),
    ;

    /// Of two messages, one comes no later than the other.
    proof fn lemma_at_most_total(a: Self::V, b: Self::V)
        ensures
            Self::spec_at_most(a, b) || Self::spec_at_most(b, a),
    ;

    /// The order is transitive.
    proof fn lemma_at_most_transitive(a: Self::V, b: Self::V, c: Self::V)
        requires
            Self::spec_at_most(a, b),
            Self::spec_at_most(b, c),
        ensures
            Self::spec_at_most(a, c),
    ;
}

impl Ordered for i32 {
    open spec fn spec_at_most(a: i32, b: i32) -> bool {
        a <= b
    }

    fn at_most(&self, other: &Self) -> (r: bool) {
        *self <= *other
    }

    proof fn lemma_at_most_total(a: i32, b: i32) {
    }

    proof fn lemma_at_most_transitive(a: i32, b: i32, c: i32) {
    }
}

impl Ordered for i64 {
    open spec fn spec_at_most(a: i64, b: i64) -> bool {
        a <= b
    }

    fn at_most(&self, other: &Self) -> (r: bool) {
        *self <= *other
    }

    proof fn lemma_at_most_total(a: i64, b: i64) {
    }

    proof fn lemma_at_most_transitive(a: i64, b: i64, c: i64) {
    }
}

impl Ordered for u64 {
    open spec fn spec_at_most(a: u64, b: u64) -> bool {
        a <= b
    }

    fn at_most(&self, other: &Self) -> (r: bool) {
        *self <= *other
    }

    proof fn lemma_at_most_total(a: u64, b: u64) {
    }

    proof fn lemma_at_most_transitive(a: u64, b: u64, c: u64) {
    }
}

/// Strings are ordered character by character, a prefix first.
impl Ordered for String {
    open spec fn spec_at_most(a: Seq<char>, b: Seq<char>) -> bool {
        a == b || key_less(a, b)
    }

    fn at_most(&self, other: &Self) -> (r: bool) {
        str_eq(self.as_str(), other.as_str()) || str_less(self.as_str(), other.as_str())
    }

    proof fn lemma_at_most_total(a: Seq<char>, b: Seq<char>) {
        lemma_key_less_total(a, b);
    }

    proof fn lemma_at_most_transitive(a: Seq<char>, b: Seq<char>, c: Seq<char>) {
        if key_less(a, b) && key_less(b, c) {
            lemma_key_less_transitive(a, b, c);
        }
    }
}

/// For the integer messages the order is the numeric one: one comes no
/// later than another exactly where it is no greater.
pub proof fn lemma_integer_order()
    ensures
        forall|a: i32, b: i32| #[trigger] <i32 as Ordered>::spec_at_most(a, b) == (a <= b),
        forall|a: i64, b: i64| #[trigger] <i64 as Ordered>::spec_at_most(a, b) == (a <= b),
        forall|a: u64, b: u64| #[trigger] <u64 as Ordered>::spec_at_most(a, b) == (a <= b),
{
}

/// Strings are ordered as words in a dictionary, by code point: a string
/// comes no later than any string it begins, and where two strings first
/// differ, the one with the smaller character there comes first and the
/// other does not.
pub proof fn lemma_string_order(a: Seq<char>, b: Seq<char>)
    ensures
        a.len() <= b.len() && a == b.take(a.len() as int) ==> <String as Ordered>::spec_at_most(
            a,
            b,
        ),
        forall|k: int|
            0 <= k < a.len() && k < b.len() && a.take(k) == b.take(k) && #[trigger] a[k] < #[trigger] b[k]
                ==> <String as Ordered>::spec_at_most(a, b) && !<String as Ordered>::spec_at_most(b, a),
    decreases a.len(),
{
    if a.len() > 0 && b.len() > 0 {
        lemma_string_order(a.drop_first(), b.drop_first());
        if a.len() <= b.len() && a == b.take(a.len() as int) {
            assert(a[0] == b[0]);
            assert(a.drop_first() =~= b.drop_first().take(a.drop_first().len() as int));
            if a.drop_first() == b.drop_first() {
                assert(a =~= b);
            }
        }
        assert forall|k: int|
            0 <= k < a.len() && k < b.len() && a.take(k) == b.take(k) && #[trigger] a[k] < #[trigger] b[k]
            implies <String as Ordered>::spec_at_most(a, b) && !<String as Ordered>::spec_at_most(b, a) by {
            if k == 0 {
                assert(a != b);
            } else {
                assert(a[0] == a.take(k)[0] && b[0] == b.take(k)[0]);
                assert(a.drop_first().take(k - 1) =~= a.take(k).drop_first());
                assert(b.drop_first().take(k - 1) =~= b.take(k).drop_first());
                assert(a.drop_first()[k - 1] == a[k] && b.drop_first()[k - 1] == b[k]);
                assert(a != b) by {
                    if a == b {
                        assert(a[k] == b[k]);
                    }
                }
            }
        }
    } else if a.len() == 0 {
        if b.len() == 0 {
            assert(a =~= b);
        }
    }
}

} // verus!
