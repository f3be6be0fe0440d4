use vstd::prelude::*;

verus! {

/// How messages are framed when turned into bytes and back.
#[derive(Clone, Copy, Debug, PartialEq, Eq, Structural, Hash)]
pub enum Encoding {
    ProtobufWithLengthPrefix,
    ProtobufWithoutLengthPrefix,
    TextWithNewlineSuffix,
}

impl Default for Encoding {
    fn default() -> (e: Self)
        ensures
            e == Encoding::TextWithNewlineSuffix,
    {
        Encoding::TextWithNewlineSuffix
    }
}

/// The digest algorithms a hash block can use.
#[derive(Clone, Copy, Debug, PartialEq, Eq, Structural, Hash)]
pub enum HashAlgorithm {
    Blake3,
    Sha256,
    Sha1,
    Md5,
}

impl Default for HashAlgorithm {
    fn default() -> (a: Self)
        ensures
            a == HashAlgorithm::Blake3,
    {
        HashAlgorithm::Blake3
    }
}

/// How long a delay block holds each message, in nanoseconds:
/// a fixed time, or a time drawn from the half-open range `start..end`.
#[derive(Clone, Copy, Debug, PartialEq, Eq, Structural, Hash)]
pub enum DelayType {
    Fixed(u64),
    Random(u64, u64),
}

/// One second, in nanoseconds.
pub const NANOS_PER_SEC: u64 = 1_000_000_000;

impl Default for DelayType {
    fn default() -> (d: Self)
        ensures
            d == DelayType::Fixed(NANOS_PER_SEC),
    {
        DelayType::Fixed(NANOS_PER_SEC)
    }
}

/// A size in bytes.
pub type ByteSize = usize;

} // verus!
