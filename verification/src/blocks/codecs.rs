use crate::lines::{
    concat_chunks, decode_chunks, is_single_line, lemma_decode_any_chunking,
    lemma_encode_then_decode, lemma_valid_text_any_chunking, line_decode_step, spec_encode_line, spec_scan_lines, strings_view,
    LineDecoder, NEWLINE,
};
use crate::message::{values, Message};
use crate::proto::length_delimited;
use std::marker::PhantomData;
use crate::types::{Encoding, HashAlgorithm};
use vstd::prelude::*;

verus! {

/// The bytes for a message in an encoding: its protocol buffer encoding,
/// with or without its length in front, or its text's UTF-8 bytes and a line
/// feed.
pub open spec fn encoded_message<T: Message>(encoding: Encoding, message: T) -> Seq<u8> {
    match encoding {
        Encoding::ProtobufWithLengthPrefix => length_delimited(message.spec_proto()),
        Encoding::ProtobufWithoutLengthPrefix => message.spec_proto(),
        Encoding::TextWithNewlineSuffix => spec_encode_line(message.spec_text()),
    }
}

/// Turns each message into bytes, as its encoding says.
pub struct Encode<T> {
    encoding: Encoding,
    marker: PhantomData<T>,
}

impl<T: Message> Encode<T> {
    /// How messages are turned into bytes.
    pub closed spec fn spec_encoding(&self) -> Encoding {
        self.encoding
    }

    /// How messages are turned into bytes.
    pub fn encoding(&self) -> (e: Encoding)
        ensures
            e == self.spec_encoding(),
    {
        self.encoding
    }

    /// The default encoding: text with a line feed after each message.
    pub fn new() -> (e: Self)
        ensures
            e.spec_encoding() == Encoding::TextWithNewlineSuffix,
    {
        Self::with_params(None)
    }

    /// The given encoding, else text with a line feed after each message.
    pub fn with_params(encoding: Option<Encoding>) -> (e: Self)
        ensures
            e.spec_encoding() == match encoding {
                Some(x) => x,
                None => Encoding::TextWithNewlineSuffix,
            },
    {
        let encoding = match encoding {
            Some(x) => x,
            None => Encoding::default(),
        };
        Encode { encoding, marker: PhantomData }
    }

    /// The bytes for a message, as the encoding says: its protocol buffer
    /// encoding, with or without its length in front, or the UTF-8 bytes of
    /// its text and a line feed.
    pub fn on_input(&self, message: &T) -> (r: Vec<u8>)
        ensures
            r@ == encoded_message(self.spec_encoding(), *message),
    {
        match self.encoding {
            Encoding::ProtobufWithLengthPrefix => message.proto_bytes_delimited(),
            Encoding::ProtobufWithoutLengthPrefix => message.proto_bytes(),
            Encoding::TextWithNewlineSuffix => {
                let mut b = message.text_bytes();
                b.push(NEWLINE);
                b
            },
        }
    }
}

/// The messages that the lines `ls` read as, in order; a line that reads as
/// no message is skipped.
pub open spec fn parse_lines<T: Message>(ls: Seq<Seq<char>>) -> Seq<T::V>
    decreases ls.len(),
{
    if ls.len() == 0 {
        seq![]
    } else {
        let rest = parse_lines::<T>(ls.drop_last());
        match T::spec_parse(ls.last()) {
            Some(m) => rest.push(m),
            None => rest,
        }
    }
}

/// What a decoder sends for a chunk: the messages read from the lines that
/// it completes, and whether reading the text failed.
pub struct DecodedMessages<T> {
    pub messages: Vec<T>,
    pub failed: bool,
}

/// Turns chunks of bytes back into messages: text lines, each ended by a
/// line feed, each read as a message.
pub struct Decode<T> {
    encoding: Encoding,
    lines: LineDecoder,
    marker: PhantomData<T>,
}

impl<T: Message> Decode<T> {
    /// How the bytes frame messages.
    pub closed spec fn spec_encoding(&self) -> Encoding {
        self.encoding
    }

    /// How the bytes frame messages.
    pub fn encoding(&self) -> (e: Encoding)
        ensures
            e == self.spec_encoding(),
    {
        self.encoding
    }

    /// The bytes received but not yet decoded.
    pub closed spec fn pending(&self) -> Seq<u8> {
        self.lines.pending()
    }

    /// The default encoding: text with a line feed after each message.
    pub fn new() -> (d: Self)
        ensures
            d.spec_encoding() == Encoding::TextWithNewlineSuffix,
            d.pending() == Seq::<u8>::empty(),
    {
        Self::with_params(None)
    }

    /// The given encoding, else text lines.
    pub fn with_params(encoding: Option<Encoding>) -> (d: Self)
        ensures
            d.spec_encoding() == match encoding {
                Some(x) => x,
                None => Encoding::TextWithNewlineSuffix,
            },
            d.pending() == Seq::<u8>::empty(),
    {
        let encoding = match encoding {
            Some(x) => x,
            None => Encoding::default(),
        };
        Decode { encoding, lines: LineDecoder::new(), marker: PhantomData }
    }

    /// Takes a chunk of text: the messages read from the lines it completes,
    /// as the line decoder reads them; a line that reads as no message is
    /// skipped.
    pub fn on_input(&mut self, chunk: &[u8]) -> (r: DecodedMessages<T>)
        requires
            old(self).spec_encoding() == Encoding::TextWithNewlineSuffix,
        ensures
            final(self).spec_encoding() == old(self).spec_encoding(),
            (values(r.messages@), final(self).pending(), r.failed) == decode_step::<T>(
                old(self).pending(),
                chunk@,
            ),
    {
        let decoded = self.lines.on_chunk(chunk);
        let ghost ls = strings_view(decoded.lines@);
        let mut messages: Vec<T> = Vec::new();
        let mut i: usize = 0;
        while i < decoded.lines.len()
            invariant
                i <= decoded.lines@.len(),
                ls == strings_view(decoded.lines@),
                values(messages@) == parse_lines::<T>(ls.take(i as int)),
            decreases decoded.lines@.len() - i,
        {
            let parsed = T::parse_text(decoded.lines[i].as_str());
            proof {
                assert(ls.take(i + 1).drop_last() =~= ls.take(i as int));
                assert(ls[i as int] == decoded.lines@[i as int]@);
            }
            match parsed {
                Some(m) => {
                    let ghost before = messages@;
                    messages.push(m);
                    proof {
                        assert(values(messages@) =~= values(before).push(m@));
                    }
                },
                None => {},
            }
            i = i + 1;
        }
        proof {
            assert(ls.take(ls.len() as int) =~= ls);
        }
        DecodedMessages { messages, failed: decoded.failed }
    }
}

/// What a decoder with pending bytes does with a chunk: the messages it
/// sends, the bytes left pending, and whether reading the text failed.
pub open spec fn decode_step<T: Message>(pending: Seq<u8>, chunk: Seq<u8>) -> (
    Seq<T::V>,
    Seq<u8>,
    bool,
) {
    let s = line_decode_step(pending, chunk);
    (parse_lines::<T>(s.0), s.1, s.2)
}

/// Feeding a decoder with pending bytes the chunks one by one, stopping at
/// the first failure: all the messages it sends, the bytes left pending,
/// and whether it failed.
pub open spec fn decode_feed<T: Message>(pending: Seq<u8>, cs: Seq<Seq<u8>>) -> (
    Seq<T::V>,
    Seq<u8>,
    bool,
)
    decreases cs.len(),
{
    if cs.len() == 0 {
        (seq![], pending, false)
    } else {
        let s = decode_step::<T>(pending, cs[0]);
        if s.2 {
            s
        } else {
            let rest = decode_feed::<T>(s.1, cs.drop_first());
            (s.0 + rest.0, rest.1, rest.2)
        }
    }
}

/// Reading the lines of two parts one after the other reads the messages of
/// each part, in order.
pub proof fn lemma_parse_lines_concat<T: Message>(a: Seq<Seq<char>>, b: Seq<Seq<char>>)
    ensures
        parse_lines::<T>(a + b) == parse_lines::<T>(a) + parse_lines::<T>(b),
    decreases b.len(),
{
    if b.len() == 0 {
        assert(a + b =~= a);
        assert(parse_lines::<T>(a) + parse_lines::<T>(b) =~= parse_lines::<T>(a));
    } else {
        lemma_parse_lines_concat::<T>(a, b.drop_last());
        assert((a + b).drop_last() =~= a + b.drop_last());
        assert((a + b).last() == b.last());
        match T::spec_parse(b.last()) {
            Some(m) => {
                assert(parse_lines::<T>(a) + parse_lines::<T>(b) =~= (parse_lines::<T>(a)
                    + parse_lines::<T>(b.drop_last())).push(m));
            },
            None => {},
        }
    }
}

/// A decoder fed chunks one by one sends the messages of the lines that a
/// line decoder fed the same chunks reads, and ends in the same state.
pub proof fn lemma_decode_feed_lines<T: Message>(pending: Seq<u8>, cs: Seq<Seq<u8>>)
    ensures
        decode_feed::<T>(pending, cs) == (
            parse_lines::<T>(decode_chunks(pending, cs).0),
            decode_chunks(pending, cs).1,
            decode_chunks(pending, cs).2,
        ),
    decreases cs.len(),
{
    if cs.len() == 0 {
        assert(parse_lines::<T>(seq![]) == Seq::<T::V>::empty());
    } else {
        let s = line_decode_step(pending, cs[0]);
        if !s.2 {
            lemma_decode_feed_lines::<T>(s.1, cs.drop_first());
            lemma_parse_lines_concat::<T>(s.0, decode_chunks(s.1, cs.drop_first()).0);
        }
    }
}

/// How the input is cut into chunks does not matter: a decoder whose pending
/// bytes hold no line feed, fed chunks one by one without failing, sends the
/// messages of the lines of all the bytes read at once, and keeps pending
/// what follows the last line feed.
pub proof fn lemma_decode_messages_any_chunking<T: Message>(
    pending: Seq<u8>,
    cs: Seq<Seq<u8>>,
)
    requires
        forall|j: int| 0 <= j < pending.len() ==> pending[j] != NEWLINE,
        !decode_feed::<T>(pending, cs).2,
    ensures
        ({
            let all = pending + concat_chunks(cs);
            let scan = spec_scan_lines(all);
            &&& decode_feed::<T>(pending, cs).0 == parse_lines::<T>(scan.0)
            &&& decode_feed::<T>(pending, cs).1 == all.skip(scan.1)
        }),
{
    lemma_decode_feed_lines::<T>(pending, cs);
    lemma_decode_any_chunking(pending, cs);
}

/// Text read in chunks that are each valid text is decoded as if read at
/// once, whatever the chunks: a fresh decoder never fails, sends the
/// messages of the lines of all the bytes, in order, and keeps pending what
/// follows the last line feed.
pub proof fn lemma_decode_valid_text_any_chunking<T: Message>(cs: Seq<Seq<u8>>)
    requires
        forall|i: int| 0 <= i < cs.len() ==> vstd::utf8::valid_utf8(#[trigger] cs[i]),
    ensures
        ({
            let all = concat_chunks(cs);
            let scan = spec_scan_lines(all);
            decode_feed::<T>(seq![], cs) == (parse_lines::<T>(scan.0), all.skip(scan.1), false)
        }),
{
    lemma_decode_feed_lines::<T>(seq![], cs);
    lemma_valid_text_any_chunking(cs);
}

/// Encoding messages one by one and decoding the bytes, message by message,
/// with a fresh decoder gives back the messages, where no message's text
/// holds a line feed.
pub proof fn lemma_encode_then_decode_messages<T: Message>(xs: Seq<T>)
    requires
        forall|i: int|
            0 <= i < xs.len() ==> forall|k: int|
                0 <= k < (#[trigger] xs[i]).spec_text().len() ==> #[trigger] xs[i].spec_text()[k]
                    != '\n',
    ensures
        decode_feed::<T>(seq![], xs.map_values(|x: T| spec_encode_line(x.spec_text()))) == (
            values(xs),
            Seq::<u8>::empty(),
            false,
        ),
    decreases xs.len(),
{
    let ls = xs.map_values(|x: T| x.spec_text());
    assert forall|i: int| 0 <= i < ls.len() implies is_single_line(#[trigger] ls[i]) by {
        assert(ls[i] == xs[i].spec_text());
    }
    assert(xs.map_values(|x: T| spec_encode_line(x.spec_text())) =~= ls.map_values(
        |l: Seq<char>| spec_encode_line(l),
    ));
    lemma_encode_then_decode(ls);
    lemma_decode_feed_lines::<T>(seq![], xs.map_values(|x: T| spec_encode_line(x.spec_text())));
    lemma_parse_lines_of_texts::<T>(xs);
}

/// Reading back the texts of messages whose texts hold no line feed gives
/// the messages.
pub proof fn lemma_parse_lines_of_texts<T: Message>(xs: Seq<T>)
    requires
        forall|i: int|
            0 <= i < xs.len() ==> forall|k: int|
                0 <= k < (#[trigger] xs[i]).spec_text().len() ==> #[trigger] xs[i].spec_text()[k]
                    != '\n',
    ensures
        parse_lines::<T>(xs.map_values(|x: T| x.spec_text())) == values(xs),
    decreases xs.len(),
{
    if xs.len() > 0 {
        let ys = xs.drop_last();
        assert forall|i: int|
            0 <= i < ys.len() implies forall|k: int|
            0 <= k < (#[trigger] ys[i]).spec_text().len() ==> #[trigger] ys[i].spec_text()[k]
                != '\n' by {
            assert(ys[i] == xs[i]);
        }
        lemma_parse_lines_of_texts::<T>(ys);
        let x = xs.last();
        assert(xs[xs.len() - 1] == x);
        x.lemma_parse_text();
        let ls = xs.map_values(|x: T| x.spec_text());
        assert(ls.drop_last() =~= ys.map_values(|x: T| x.spec_text()));
        assert(values(xs) =~= values(ys).push(x@));
    }
}

/// Forwards each chunk of bytes it receives and keeps them all, to hash them
/// once its input ends.
pub struct Hash {
    algorithm: HashAlgorithm,
    buffer: Vec<u8>,
}

impl Hash {
    /// The digest algorithm.
    pub closed spec fn spec_algorithm(&self) -> HashAlgorithm {
        self.algorithm
    }

    /// The digest algorithm.
    pub fn algorithm(&self) -> (a: HashAlgorithm)
        ensures
            a == self.spec_algorithm(),
    {
        self.algorithm
    }

    /// The bytes received so far.
    pub closed spec fn received(&self) -> Seq<u8> {
        self.buffer@
    }

    /// The default algorithm.
    pub fn new() -> (h: Self)
        ensures
            h.spec_algorithm() == HashAlgorithm::Blake3,
            h.received() == Seq::<u8>::empty(),
    {
        Self::with_params(None)
    }

    /// The given algorithm, else the default one.
    pub fn with_params(algorithm: Option<HashAlgorithm>) -> (h: Self)
        ensures
            h.spec_algorithm() == match algorithm {
                Some(a) => a,
                None => HashAlgorithm::Blake3,
            },
            h.received() == Seq::<u8>::empty(),
    {
        let algorithm = match algorithm {
            Some(a) => a,
            None => HashAlgorithm::default(),
        };
        Hash { algorithm, buffer: Vec::new() }
    }

    /// Keeps a chunk; whether to forward it: only where the output is
    /// connected.
    pub fn on_input(&mut self, chunk: &[u8], output_connected: bool) -> (forward: bool)
        ensures
            final(self).spec_algorithm() == old(self).spec_algorithm(),
            final(self).received() == old(self).received() + chunk@,
            forward == output_connected,
    {
        let mut i: usize = 0;
        while i < chunk.len()
            invariant
                i <= chunk@.len(),
                self.buffer@ == old(self).buffer@ + chunk@.take(i as int),
                self.algorithm == old(self).algorithm,
            decreases chunk@.len() - i,
        {
            self.buffer.push(chunk[i]);
            assert(chunk@.take(i + 1) =~= chunk@.take(i as int).push(chunk@[i as int]));
            i = i + 1;
        }
        assert(chunk@.take(chunk@.len() as int) =~= chunk@);
        output_connected
    }

    /// The input ended: the bytes to hash, all those received; the block
    /// keeps none.
    pub fn on_input_closed(&mut self) -> (data: Vec<u8>)
        ensures
            data@ == old(self).received(),
            final(self).received() == Seq::<u8>::empty(),
            final(self).spec_algorithm() == old(self).spec_algorithm(),
    {
        let mut data: Vec<u8> = Vec::new();
        std::mem::swap(&mut data, &mut self.buffer);
        data
    }
}

/// A hashing block that kept `received`, fed the chunks `cs` one by one:
/// which of them it forwards and the bytes it keeps.
pub open spec fn hash_feed(received: Seq<u8>, cs: Seq<Seq<u8>>, output_connected: bool) -> (
    Seq<Seq<u8>>,
    Seq<u8>,
)
    decreases cs.len(),
{
    if cs.len() == 0 {
        (Seq::empty(), received)
    } else {
        let r = hash_feed(received + cs[0], cs.drop_first(), output_connected);
        (if output_connected {
            seq![cs[0]] + r.0
        } else {
            r.0
        }, r.1)
    }
}

/// Over a stream a hashing block forwards every chunk, in order, where its
/// output is connected (and none where it is not), and what it hashes once
/// the input ends is all the bytes received, in order.
pub proof fn lemma_hash_stream(received: Seq<u8>, cs: Seq<Seq<u8>>, output_connected: bool)
    ensures
        hash_feed(received, cs, output_connected).0 == (if output_connected {
            cs
        } else {
            Seq::empty()
        }),
        hash_feed(received, cs, output_connected).1 == received + concat_chunks(cs),
    decreases cs.len(),
{
    if cs.len() == 0 {
        assert(received + concat_chunks(cs) =~= received);
    } else {
        lemma_hash_stream(received + cs[0], cs.drop_first(), output_connected);
        assert(received + cs[0] + concat_chunks(cs.drop_first()) =~= received + concat_chunks(cs));
        if output_connected {
            assert(seq![cs[0]] + cs.drop_first() =~= cs);
        }
    }
}

} // verus!
