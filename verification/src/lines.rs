use crate::strings::{copy_range, lemma_valid_with_newline, str_bytes, string_from_utf8};
use vstd::prelude::*;
use vstd::utf8::*;

verus! {

/// The line feed byte that ends each line of text.
pub const NEWLINE: u8 = 10;

/// The position of the first line feed in `s`, if any.
pub open spec fn first_newline(s: Seq<u8>) -> Option<int>
    decreases s.len(),
{
    if s.len() == 0 {
        None
    } else if s[0] == NEWLINE {
        Some(0)
    } else {
        match first_newline(s.drop_first()) {
            Some(k) => Some(k + 1),
            None => None,
        }
    }
}

/// What reading lines from a buffer gives: the complete lines (without their
/// line feeds), the number of bytes they took up, and whether reading stopped
/// on bytes that are not valid UTF-8.
pub type LineScan = (Seq<Seq<char>>, int, bool);

/// Reads complete lines from the front of `buf`, line by line. Each line, with
/// its line feed, must be valid UTF-8; reading stops with a failure at the first
/// one that is not. After the last line feed, the unfinished line is left unread,
/// but must be valid UTF-8 too.
pub open spec fn spec_scan_lines(buf: Seq<u8>) -> LineScan
    decreases buf.len(),
{
    match first_newline(buf) {
        Some(k) => {
            if !valid_utf8(buf.take(k + 1)) {
                (seq![], 0, true)
            } else {
                proof {
                    lemma_first_newline_bounds(buf);
                }
                let rest = spec_scan_lines(buf.skip(k + 1));
                (seq![decode_utf8(buf.take(k))] + rest.0, k + 1 + rest.1, rest.2)
            }
        },
        None => (seq![], 0, !valid_utf8(buf)),
    }
}

/// Puts lines already read in front of what reading the rest gives.
pub open spec fn prepend_scan(lines: Seq<Seq<char>>, consumed: int, r: LineScan) -> LineScan {
    (lines + r.0, consumed + r.1, r.2)
}

/// The abstract value of a list of strings.
pub open spec fn strings_view(v: Seq<String>) -> Seq<Seq<char>> {
    v.map_values(|s: String| s@)
}

/// Where the first line feed is, if there is one.
pub proof fn lemma_first_newline_bounds(s: Seq<u8>)
    ensures
        first_newline(s) matches Some(k) ==> 0 <= k < s.len() && s[k] == NEWLINE && forall|j: int|
            0 <= j < k ==> s[j] != NEWLINE,
        first_newline(s) is None ==> forall|j: int| 0 <= j < s.len() ==> s[j] != NEWLINE,
    decreases s.len(),
{
    if s.len() > 0 {
        lemma_first_newline_bounds(s.drop_first());
        if s[0] != NEWLINE {
            assert forall|j: int| 1 <= j < s.len() implies s[j] == s.drop_first()[j - 1] by {}
        }
    }
}

/// `s[m]` is the first line feed of `s`.
pub proof fn lemma_first_newline_at(s: Seq<u8>, m: int)
    requires
        0 <= m < s.len(),
        s[m] == NEWLINE,
        forall|j: int| 0 <= j < m ==> s[j] != NEWLINE,
    ensures
        first_newline(s) == Some(m),
    decreases m,
{
    if m > 0 {
        lemma_first_newline_at(s.drop_first(), m - 1);
    }
}

/// `s` holds no line feed.
pub proof fn lemma_no_newline(s: Seq<u8>)
    requires
        forall|j: int| 0 <= j < s.len() ==> s[j] != NEWLINE,
    ensures
        first_newline(s) is None,
    decreases s.len(),
{
    if s.len() > 0 {
        lemma_no_newline(s.drop_first());
    }
}

/// Whether a byte sequence holds a line feed.
pub fn contains_newline(s: &[u8]) -> (r: bool)
    ensures
        r == (exists|j: int| 0 <= j < s@.len() && s@[j] == NEWLINE),
{
    let mut i: usize = 0;
    while i < s.len()
        invariant
            i <= s@.len(),
            forall|j: int| 0 <= j < i ==> s@[j] != NEWLINE,
        decreases s@.len() - i,
    {
        if s[i] == NEWLINE {
            return true;
        }
        i = i + 1;
    }
    false
}

/// Reads complete lines from the front of a buffer, as [`spec_scan_lines`] says.
pub fn scan_lines(buf: &[u8]) -> (r: (Vec<String>, usize, bool))
    ensures
        spec_scan_lines(buf@) == (strings_view(r.0@), r.1 as int, r.2),
{
    let n = buf.len();
    let mut lines: Vec<String> = Vec::new();
    let mut pos: usize = 0;
    assert(buf@.skip(0) =~= buf@);
    assert(strings_view(lines@) =~= seq![]);
    loop
        invariant
            n == buf@.len(),
            pos <= n,
            spec_scan_lines(buf@) == prepend_scan(
                strings_view(lines@),
                pos as int,
                spec_scan_lines(buf@.skip(pos as int)),
            ),
        decreases n - pos,
    {
        let ghost rest = buf@.skip(pos as int);
        let mut k = pos;
        while k < n && buf[k] != NEWLINE
            invariant
                pos <= k <= n,
                n == buf@.len(),
                forall|j: int| pos <= j < k ==> buf@[j] != NEWLINE,
            decreases n - k,
        {
            k = k + 1;
        }
        if k == n {
            proof {
                lemma_no_newline(rest);
            }
            let tail = copy_range(buf, pos, n);
            assert(tail@ =~= rest);
            let ok = string_from_utf8(tail).is_some();
            assert(strings_view(lines@) + seq![] =~= strings_view(lines@));
            return (lines, pos, !ok);
        }
        proof {
            lemma_first_newline_at(rest, k - pos);
        }
        let line = copy_range(buf, pos, k);
        proof {
            assert(line@ =~= rest.take(k - pos));
            assert(rest.take(k - pos + 1) =~= line@ + seq![NEWLINE]);
            lemma_valid_with_newline(line@);
        }
        match string_from_utf8(line) {
            None => {
                assert(strings_view(lines@) + seq![] =~= strings_view(lines@));
                return (lines, pos, true);
            },
            Some(s) => {
                proof {
                    encode_utf8_decode_utf8(s@);
                    assert(rest.skip(k - pos + 1) =~= buf@.skip(k + 1));
                }
                let ghost before = strings_view(lines@);
                lines.push(s);
                assert(strings_view(lines@) =~= before + seq![s@]);
                assert(before + (seq![s@] + spec_scan_lines(buf@.skip(k + 1)).0) =~= strings_view(
                    lines@,
                ) + spec_scan_lines(buf@.skip(k + 1)).0);
                pos = k + 1;
            },
        }
    }
}

/// The bytes of a line of text: the string's UTF-8 bytes and a line feed.
pub open spec fn spec_encode_line(s: Seq<char>) -> Seq<u8> {
    encode_utf8(s) + seq![NEWLINE]
}

/// Encodes a line of text: the string's UTF-8 bytes and a line feed.
pub fn encode_line(s: &str) -> (r: Vec<u8>)
    ensures
        r@ == spec_encode_line(s@),
{
    let mut r = str_bytes(s);
    r.push(NEWLINE);
    r
}

/// The bytes of several lines of text, one after the other.
pub open spec fn spec_encode_lines(ls: Seq<Seq<char>>) -> Seq<u8>
    decreases ls.len(),
{
    if ls.len() == 0 {
        seq![]
    } else {
        spec_encode_line(ls[0]) + spec_encode_lines(ls.drop_first())
    }
}

/// No character of the line is a line feed.
pub open spec fn is_single_line(l: Seq<char>) -> bool {
    forall|j: int| 0 <= j < l.len() ==> l[j] != '\n'
}

/// The UTF-8 bytes of a character other than a line feed hold no line feed byte.
proof fn lemma_scalar_no_newline(v: u32)
    requires
        is_scalar(v),
        v != 10,
    ensures
        forall|j: int| 0 <= j < encode_scalar(v).len() ==> encode_scalar(v)[j] != NEWLINE,
{
    let e = encode_scalar(v);
    if has_width_1_encoding(v) {
        assert((v & 0x7F) as u8 != 10u8) by (bit_vector)
            requires
                v <= 0x7F,
                v != 10,
        ;
    } else {
        let a2 = ((v >> 6) & 0x1F) as u8;
        let a3 = ((v >> 12) & 0x0F) as u8;
        let a4 = ((v >> 18) & 0x7) as u8;
        let c1 = (v & 0x3F) as u8;
        let c2 = ((v >> 6) & 0x3F) as u8;
        let c3 = ((v >> 12) & 0x3F) as u8;
        assert(0xC0u8 | a2 != 10u8) by (bit_vector);
        assert(0xE0u8 | a3 != 10u8) by (bit_vector);
        assert(0xF0u8 | a4 != 10u8) by (bit_vector);
        assert(0x80u8 | c1 != 10u8) by (bit_vector);
        assert(0x80u8 | c2 != 10u8) by (bit_vector);
        assert(0x80u8 | c3 != 10u8) by (bit_vector);
    }
}

/// The UTF-8 bytes of a single line of text hold no line feed.
pub proof fn lemma_encode_no_newline(l: Seq<char>)
    requires
        is_single_line(l),
    ensures
        forall|j: int| 0 <= j < encode_utf8(l).len() ==> encode_utf8(l)[j] != NEWLINE,
    decreases l.len(),
{
    if l.len() > 0 {
        let c = l[0];
        char_is_scalar(c);
        assert(c != '\n');
        assert((c as u32) != 10) by {
            if (c as u32) == 10 {
                char_u32_cast(c, 10);
                char_u32_cast('\n', 10);
            }
        }
        lemma_scalar_no_newline(c as u32);
        assert(is_single_line(l.drop_first()));
        lemma_encode_no_newline(l.drop_first());
        let a = encode_scalar(c as u32);
        let b = encode_utf8(l.drop_first());
        assert(encode_utf8(l) == a + b);
        assert forall|j: int| 0 <= j < (a + b).len() implies (a + b)[j] != NEWLINE by {
            if j < a.len() {
                assert((a + b)[j] == a[j]);
            } else {
                assert((a + b)[j] == b[j - a.len()]);
            }
        }
    }
}

/// Reading lines back from the bytes of several single lines of text gives
/// those lines, reads every byte, and does not fail.
pub proof fn lemma_lines_roundtrip(ls: Seq<Seq<char>>)
    requires
        forall|i: int| 0 <= i < ls.len() ==> is_single_line(#[trigger] ls[i]),
    ensures
        spec_scan_lines(spec_encode_lines(ls)) == (ls, spec_encode_lines(ls).len() as int, false),
    decreases ls.len(),
{
    let buf = spec_encode_lines(ls);
    if ls.len() == 0 {
        assert(buf =~= Seq::<u8>::empty());
        assert(valid_utf8(buf));
        assert(ls =~= seq![]);
    } else {
        let l = ls[0];
        let e = encode_utf8(l);
        let rest = spec_encode_lines(ls.drop_first());
        assert(buf =~= e + seq![NEWLINE] + rest);
        assert(is_single_line(l));
        lemma_encode_no_newline(l);
        let k = e.len() as int;
        assert(buf[k] == NEWLINE);
        assert forall|j: int| 0 <= j < k implies buf[j] != NEWLINE by {
            assert(buf[j] == e[j]);
        }
        lemma_first_newline_at(buf, k);
        assert(buf.take(k) =~= e);
        assert(buf.take(k + 1) =~= e + seq![NEWLINE]);
        encode_utf8_valid_utf8(l);
        lemma_valid_with_newline(e);
        encode_utf8_decode_utf8(l);
        assert(buf.skip(k + 1) =~= rest);
        assert forall|i: int| 0 <= i < ls.drop_first().len() implies is_single_line(
            #[trigger] ls.drop_first()[i],
        ) by {
            assert(ls.drop_first()[i] == ls[i + 1]);
        }
        lemma_lines_roundtrip(ls.drop_first());
        assert(seq![l] + ls.drop_first() =~= ls);
    }
}

/// Reading lines from bytes followed by more bytes reads the lines of the
/// first bytes, then the lines of what they left unread followed by the
/// more bytes, where reading the first bytes does not fail.
pub proof fn lemma_scan_concat(x: Seq<u8>, y: Seq<u8>)
    requires
        !spec_scan_lines(x).2,
    ensures
        spec_scan_lines(x + y) == prepend_scan(
            spec_scan_lines(x).0,
            spec_scan_lines(x).1,
            spec_scan_lines(x.skip(spec_scan_lines(x).1) + y),
        ),
    decreases x.len(),
{
    lemma_first_newline_bounds(x);
    match first_newline(x) {
        Some(k) => {
            let xy = x + y;
            assert forall|j: int| 0 <= j < k implies xy[j] != NEWLINE by {
                assert(xy[j] == x[j]);
            }
            assert(xy[k] == x[k]);
            lemma_first_newline_at(xy, k);
            assert(xy.take(k + 1) =~= x.take(k + 1));
            assert(xy.take(k) =~= x.take(k));
            let rest = x.skip(k + 1);
            assert(xy.skip(k + 1) =~= rest + y);
            lemma_scan_concat(rest, y);
            let n = spec_scan_lines(rest).1;
            lemma_scan_consumed(rest);
            assert(x.skip(k + 1 + n) =~= rest.skip(n));
            let a = spec_scan_lines(rest.skip(n) + y);
            assert(seq![decode_utf8(x.take(k))] + (spec_scan_lines(rest).0 + a.0) =~= (seq![
                decode_utf8(x.take(k)),
            ] + spec_scan_lines(rest).0) + a.0);
        },
        None => {
            assert(x.skip(0) =~= x);
            assert(Seq::<Seq<char>>::empty() + spec_scan_lines(x + y).0 =~= spec_scan_lines(
                x + y,
            ).0);
        },
    }
}

/// Feeding a decoder two chunks reads the same lines as feeding it both
/// at once: the lines read from the pending bytes and the first chunk, then
/// those read from what they left and the second chunk, are the lines read
/// from all of it, where the first reading does not fail.
pub proof fn lemma_chunked_lines(pending: Seq<u8>, first: Seq<u8>, second: Seq<u8>)
    requires
        !spec_scan_lines(pending + first).2,
    ensures
        ({
            let one = spec_scan_lines(pending + first);
            let two = spec_scan_lines((pending + first).skip(one.1) + second);
            let all = spec_scan_lines(pending + first + second);
            &&& one.0 + two.0 == all.0
            &&& two.2 == all.2
            &&& one.1 + two.1 == all.1
        }),
{
    lemma_scan_concat(pending + first, second);
}

/// What reading lines leaves unread holds no line feed, where reading does
/// not fail: a decoder keeps pending only an unfinished line.
pub proof fn lemma_scan_leaves_no_newline(buf: Seq<u8>)
    requires
        !spec_scan_lines(buf).2,
    ensures
        forall|j: int|
            spec_scan_lines(buf).1 <= j < buf.len() ==> buf[j] != NEWLINE,
    decreases buf.len(),
{
    lemma_first_newline_bounds(buf);
    lemma_scan_consumed(buf);
    match first_newline(buf) {
        Some(k) => {
            let rest = buf.skip(k + 1);
            assert(valid_utf8(buf.take(k + 1)));
            assert(!spec_scan_lines(rest).2);
            lemma_scan_leaves_no_newline(rest);
            lemma_scan_consumed(rest);
            let n = spec_scan_lines(rest).1;
            assert(spec_scan_lines(buf).1 == k + 1 + n);
            assert forall|j: int| k + 1 + n <= j < buf.len() implies buf[j] != NEWLINE by {
                assert(rest[j - (k + 1)] != NEWLINE);
                assert(buf[j] == rest[j - (k + 1)]);
            }
        },
        None => {},
    }
}

/// The chunk holds a line feed.
pub open spec fn has_newline(chunk: Seq<u8>) -> bool {
    exists|j: int| 0 <= j < chunk.len() && chunk[j] == NEWLINE
}

/// What a decoder with pending bytes does with a chunk: a chunk without a
/// line feed is only kept; otherwise the complete lines of everything kept
/// are read, and the bytes they took up are dropped, unless reading failed.
/// The result: the lines read, the bytes left pending, and whether it failed.
pub open spec fn line_decode_step(pending: Seq<u8>, chunk: Seq<u8>) -> (Seq<Seq<char>>, Seq<u8>, bool) {
    let all = pending + chunk;
    if has_newline(chunk) {
        let scan = spec_scan_lines(all);
        if scan.2 {
            (scan.0, all, true)
        } else {
            (scan.0, all.skip(scan.1), false)
        }
    } else {
        (seq![], all, false)
    }
}

/// The chunks, one after the other.
pub open spec fn concat_chunks(cs: Seq<Seq<u8>>) -> Seq<u8>
    decreases cs.len(),
{
    if cs.len() == 0 {
        seq![]
    } else {
        cs[0] + concat_chunks(cs.drop_first())
    }
}

/// Feeding a decoder with pending bytes the chunks one by one, stopping at
/// the first failure: all the lines read, the bytes left pending, and
/// whether it failed.
pub open spec fn decode_chunks(pending: Seq<u8>, cs: Seq<Seq<u8>>) -> (Seq<Seq<char>>, Seq<u8>, bool)
    decreases cs.len(),
{
    if cs.len() == 0 {
        (seq![], pending, false)
    } else {
        let s = line_decode_step(pending, cs[0]);
        if s.2 {
            s
        } else {
            let rest = decode_chunks(s.1, cs.drop_first());
            (s.0 + rest.0, rest.1, rest.2)
        }
    }
}

/// How the input is cut into chunks does not matter: a decoder whose pending
/// bytes hold no line feed, fed chunks one by one without failing, reads the
/// lines of all the bytes at once and keeps pending what follows the last
/// line feed.
pub proof fn lemma_decode_any_chunking(pending: Seq<u8>, cs: Seq<Seq<u8>>)
    requires
        forall|j: int| 0 <= j < pending.len() ==> pending[j] != NEWLINE,
        !decode_chunks(pending, cs).2,
    ensures
        ({
            let all = pending + concat_chunks(cs);
            let scan = spec_scan_lines(all);
            &&& decode_chunks(pending, cs).0 == scan.0
            &&& decode_chunks(pending, cs).1 == all.skip(scan.1)
        }),
    decreases cs.len(),
{
    if cs.len() == 0 {
        lemma_no_newline(pending);
        assert(pending + concat_chunks(cs) =~= pending);
        assert(pending.skip(0) =~= pending);
    } else {
        let c = cs[0];
        let r = concat_chunks(cs.drop_first());
        let pc = pending + c;
        assert(pending + concat_chunks(cs) =~= pc + r);
        if has_newline(c) {
            let scan = spec_scan_lines(pc);
            assert(!scan.2);
            let p2 = pc.skip(scan.1);
            lemma_scan_leaves_no_newline(pc);
            lemma_scan_consumed(pc);
            assert forall|j: int| 0 <= j < p2.len() implies p2[j] != NEWLINE by {
                assert(p2[j] == pc[scan.1 + j]);
            }
            lemma_decode_any_chunking(p2, cs.drop_first());
            lemma_scan_concat(pc, r);
            let tail = spec_scan_lines(p2 + r);
            lemma_scan_consumed(p2 + r);
            assert((pc + r).skip(scan.1 + tail.1) =~= (p2 + r).skip(tail.1));
        } else {
            assert forall|j: int| 0 <= j < pc.len() implies pc[j] != NEWLINE by {
                if j >= pending.len() {
                    assert(pc[j] == c[j - pending.len()]);
                }
            }
            lemma_decode_any_chunking(pc, cs.drop_first());
            assert(Seq::<Seq<char>>::empty() + decode_chunks(pc, cs.drop_first()).0
                =~= decode_chunks(pc, cs.drop_first()).0);
        }
    }
}

/// Encoding single lines one message each and decoding them chunk by chunk,
/// from a decoder with nothing pending, gives the lines back, with nothing
/// left pending and no failure.
pub proof fn lemma_encode_then_decode(ls: Seq<Seq<char>>)
    requires
        forall|i: int| 0 <= i < ls.len() ==> is_single_line(#[trigger] ls[i]),
    ensures
        decode_chunks(seq![], ls.map_values(|l: Seq<char>| spec_encode_line(l))) == (
            ls,
            Seq::<u8>::empty(),
            false,
        ),
    decreases ls.len(),
{
    let cs = ls.map_values(|l: Seq<char>| spec_encode_line(l));
    if ls.len() > 0 {
        let l = ls[0];
        let c = spec_encode_line(l);
        assert(cs[0] == c);
        assert(c[c.len() - 1] == NEWLINE);
        assert(has_newline(c));
        lemma_lines_roundtrip(seq![l]);
        assert(spec_encode_lines(seq![l].drop_first()) =~= Seq::<u8>::empty());
        assert(spec_encode_lines(seq![l]) =~= c);
        assert(Seq::<u8>::empty() + c =~= c);
        assert(c.skip(c.len() as int) =~= Seq::<u8>::empty());
        assert forall|i: int| 0 <= i < ls.drop_first().len() implies is_single_line(
            #[trigger] ls.drop_first()[i],
        ) by {
            assert(ls.drop_first()[i] == ls[i + 1]);
        }
        lemma_encode_then_decode(ls.drop_first());
        assert(cs.drop_first() =~= ls.drop_first().map_values(|l: Seq<char>| spec_encode_line(l)));
        assert(seq![l] + ls.drop_first() =~= ls);
    } else {
        assert(ls =~= Seq::<Seq<char>>::empty());
    }
}

/// The state of a decoder of newline-terminated text: the bytes received
/// but not yet read as lines.
pub struct LineDecoder {
    buffer: Vec<u8>,
}

/// What a decoder gives for a chunk of bytes: the lines it completed, and
/// whether it stopped on bytes that are not valid UTF-8.
pub struct DecodedLines {
    pub lines: Vec<String>,
    pub failed: bool,
}

impl LineDecoder {
    /// The bytes received but not yet read as lines.
    pub closed spec fn pending(&self) -> Seq<u8> {
        self.buffer@
    }

    /// A decoder that has received nothing.
    pub fn new() -> (d: LineDecoder)
        ensures
            d.pending() == Seq::<u8>::empty(),
    {
        LineDecoder { buffer: Vec::new() }
    }

    /// Takes the next chunk of bytes. A chunk without a line feed is only kept.
    /// Otherwise complete lines are read from everything kept so far, and the
    /// bytes they took up are dropped.
    pub fn on_chunk(&mut self, chunk: &[u8]) -> (r: DecodedLines)
        ensures
            (strings_view(r.lines@), final(self).pending(), r.failed) == line_decode_step(
                old(self).pending(),
                chunk@,
            ),
    {
        let mut i: usize = 0;
        while i < chunk.len()
            invariant
                i <= chunk@.len(),
                self.buffer@ == old(self).buffer@ + chunk@.take(i as int),
            decreases chunk@.len() - i,
        {
            self.buffer.push(chunk[i]);
            assert(chunk@.take(i + 1) =~= chunk@.take(i as int).push(chunk@[i as int]));
            i = i + 1;
        }
        assert(chunk@.take(chunk@.len() as int) =~= chunk@);
        if !contains_newline(chunk) {
            return DecodedLines { lines: Vec::new(), failed: false };
        }
        let (lines, consumed, failed) = scan_lines(self.buffer.as_slice());
        if !failed {
            proof {
                lemma_scan_consumed(self.buffer@);
            }
            let rest = copy_range(self.buffer.as_slice(), consumed, self.buffer.len());
            assert(rest@ =~= self.buffer@.skip(consumed as int));
            self.buffer = rest;
        }
        DecodedLines { lines, failed }
    }
}

/// Reading lines never takes up more bytes than there are.
pub proof fn lemma_scan_consumed(buf: Seq<u8>)
    ensures
        0 <= spec_scan_lines(buf).1 <= buf.len(),
    decreases buf.len(),
{
    lemma_first_newline_bounds(buf);
    match first_newline(buf) {
        Some(k) => {
            if valid_utf8(buf.take(k + 1)) {
                lemma_scan_consumed(buf.skip(k + 1));
            }
        },
        None => {},
    }
}

/// Valid text split just after a line feed gives valid text on both sides.
proof fn lemma_valid_split_after_newline(buf: Seq<u8>, k: int)
    requires
        valid_utf8(buf),
        0 <= k < buf.len(),
        buf[k] == NEWLINE,
    ensures
        valid_utf8(buf.take(k + 1)),
        valid_utf8(buf.skip(k + 1)),
{
    is_char_boundary_iff_not_is_continuation_byte(buf, k);
    valid_utf8_split(buf, k);
    let head = buf.subrange(0, k);
    let tail = buf.subrange(k, buf.len() as int);
    assert(tail[0] == NEWLINE);
    assert(tail.len() != 0);
    assert(pop_first_scalar(tail) =~= buf.skip(k + 1));
    lemma_valid_with_newline(head);
    assert(head + seq![NEWLINE] =~= buf.take(k + 1));
}

/// Reading the lines of valid text never fails, and what it leaves unread
/// is valid text.
pub proof fn lemma_scan_valid(buf: Seq<u8>)
    requires
        valid_utf8(buf),
    ensures
        !spec_scan_lines(buf).2,
        0 <= spec_scan_lines(buf).1 <= buf.len(),
        valid_utf8(buf.skip(spec_scan_lines(buf).1)),
    decreases buf.len(),
{
    lemma_first_newline_bounds(buf);
    lemma_scan_consumed(buf);
    match first_newline(buf) {
        Some(k) => {
            lemma_valid_split_after_newline(buf, k);
            let rest = buf.skip(k + 1);
            lemma_scan_valid(rest);
            let n = spec_scan_lines(rest).1;
            assert(buf.skip(k + 1 + n) =~= rest.skip(n));
        },
        None => {
            assert(buf.skip(0) =~= buf);
        },
    }
}

/// A decoder whose pending bytes are valid text, fed chunks that are each
/// valid text, never fails, and keeps valid text pending.
pub proof fn lemma_valid_chunks_never_fail(pending: Seq<u8>, cs: Seq<Seq<u8>>)
    requires
        valid_utf8(pending),
        forall|i: int| 0 <= i < cs.len() ==> valid_utf8(#[trigger] cs[i]),
    ensures
        !decode_chunks(pending, cs).2,
        valid_utf8(decode_chunks(pending, cs).1),
    decreases cs.len(),
{
    if cs.len() > 0 {
        let all = pending + cs[0];
        assert(valid_utf8(cs[0]));
        valid_utf8_concat(pending, cs[0]);
        if has_newline(cs[0]) {
            lemma_scan_valid(all);
        }
        let s = line_decode_step(pending, cs[0]);
        assert forall|i: int| 0 <= i < cs.drop_first().len() implies valid_utf8(
            #[trigger] cs.drop_first()[i],
        ) by {
            assert(cs.drop_first()[i] == cs[i + 1]);
        }
        lemma_valid_chunks_never_fail(s.1, cs.drop_first());
    }
}

/// A text read in chunks that are each valid text is decoded as if read at
/// once, whatever the chunks: a fresh decoder never fails, reads the lines
/// of all the bytes, and keeps pending what follows the last line feed.
pub proof fn lemma_valid_text_any_chunking(cs: Seq<Seq<u8>>)
    requires
        forall|i: int| 0 <= i < cs.len() ==> valid_utf8(#[trigger] cs[i]),
    ensures
        ({
            let all = concat_chunks(cs);
            let scan = spec_scan_lines(all);
            &&& !decode_chunks(seq![], cs).2
            &&& decode_chunks(seq![], cs).0 == scan.0
            &&& decode_chunks(seq![], cs).1 == all.skip(scan.1)
        }),
{
    assert(valid_utf8(Seq::<u8>::empty()));
    lemma_valid_chunks_never_fail(seq![], cs);
    lemma_decode_any_chunking(seq![], cs);
    assert(Seq::<u8>::empty() + concat_chunks(cs) =~= concat_chunks(cs));
}

} // verus!
