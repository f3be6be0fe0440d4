use crate::lines::concat_chunks;
use crate::strings::copy_range;
use vstd::prelude::*;

verus! {

/// How a file is opened for writing.
#[derive(Clone, Copy, Debug, PartialEq, Eq, Structural)]
pub struct WriteFlags {
    pub create: bool,
    pub append: bool,
}

impl Default for WriteFlags {
    fn default() -> (f: Self)
        ensures
            f == (WriteFlags { create: true, append: true }),
    {
        WriteFlags { create: true, append: true }
    }
}

/// The options a file is opened with: always for writing; created if asked;
/// appended to, or else truncated.
#[derive(Clone, Copy, Debug, PartialEq, Eq, Structural)]
pub struct OpenMode {
    pub write: bool,
    pub create: bool,
    pub append: bool,
    pub truncate: bool,
}

impl WriteFlags {
    /// The default flags, with each flag that is given replacing its default.
    pub fn with_options(create: Option<bool>, append: Option<bool>) -> (f: WriteFlags)
        ensures
            f.create == match create {
                Some(c) => c,
                None => true,
            },
            f.append == match append {
                Some(a) => a,
                None => true,
            },
    {
        let defaults = WriteFlags::default();
        WriteFlags {
            create: match create {
                Some(c) => c,
                None => defaults.create,
            },
            append: match append {
                Some(a) => a,
                None => defaults.append,
            },
        }
    }

    /// The open options these flags stand for.
    pub fn open_mode(&self) -> (m: OpenMode)
        ensures
            m.write,
            m.create == self.create,
            m.append == self.append,
            m.truncate == !self.append,
    {
        OpenMode { write: true, create: self.create, append: self.append, truncate: !self.append }
    }
}

/// The address a socket block connects to, and its read buffer size.
#[derive(Clone, Debug)]
pub struct ReadSocketConfig {
    pub connection: String,
    pub buffer_size: usize,
}

/// The address a socket writer connects to, and its buffer size.
#[derive(Clone, Debug)]
pub struct WriteSocketConfig {
    pub connection: String,
    pub buffer_size: usize,
}

/// The address socket blocks use when none is configured.
pub fn default_connection() -> (s: String)
    ensures
        s@ == "tcp://127.0.0.1:7077"@,
{
    String::from_str("tcp://127.0.0.1:7077")
}

/// The buffer size socket blocks use when none is configured.
pub const DEFAULT_SOCKET_BUFFER_SIZE: usize = 1024;

/// The number of bytes read from standard input at a time when none is configured.
pub const DEFAULT_STDIN_BUFFER_SIZE: usize = 1024;

impl ReadSocketConfig {
    /// The configuration given, or the default one.
    pub fn or_default(config: Option<ReadSocketConfig>) -> (c: ReadSocketConfig)
        ensures
            config matches Some(given) ==> c.connection@ == given.connection@ && c.buffer_size
                == given.buffer_size,
            config is None ==> c.connection@ == "tcp://127.0.0.1:7077"@ && c.buffer_size
                == DEFAULT_SOCKET_BUFFER_SIZE,
    {
        match config {
            Some(given) => given,
            None => ReadSocketConfig {
                connection: default_connection(),
                buffer_size: DEFAULT_SOCKET_BUFFER_SIZE,
            },
        }
    }
}

impl WriteSocketConfig {
    /// The configuration given, or the default one.
    pub fn or_default(config: Option<WriteSocketConfig>) -> (c: WriteSocketConfig)
        ensures
            config matches Some(given) ==> c.connection@ == given.connection@ && c.buffer_size
                == given.buffer_size,
            config is None ==> c.connection@ == "tcp://127.0.0.1:7077"@ && c.buffer_size
                == DEFAULT_SOCKET_BUFFER_SIZE,
    {
        match config {
            Some(given) => given,
            None => WriteSocketConfig {
                connection: default_connection(),
                buffer_size: DEFAULT_SOCKET_BUFFER_SIZE,
            },
        }
    }
}

/// The read buffer size of a standard-input block: the one given, or the default.
pub fn stdin_buffer_size(buffer_size: Option<usize>) -> (n: usize)
    ensures
        n == match buffer_size {
            Some(b) => b,
            None => DEFAULT_STDIN_BUFFER_SIZE,
        },
{
    match buffer_size {
        Some(b) => b,
        None => DEFAULT_STDIN_BUFFER_SIZE,
    }
}

/// What one read from a byte stream into a buffer gave.
#[derive(Clone, Copy, Debug, PartialEq, Eq, Structural)]
pub enum ReadResult {
    /// The read was interrupted before it read anything.
    Interrupted,
    /// The read failed.
    Failed,
    /// The read put this many bytes at the front of the buffer; none means
    /// the end of the stream.
    Read(usize),
}

/// What a reading block does after a read.
#[derive(Debug)]
pub enum ReadStep {
    /// Read again.
    Retry,
    /// Stop with an error.
    Fail,
    /// The stream ended: stop.
    Finish,
    /// Send these bytes, then read again.
    Send(Vec<u8>),
}

/// After a read from standard input: an interrupted read is retried, a
/// failed one ends the block with an error, the end of input ends it, and
/// bytes read are sent.
pub fn stdin_read_step(buffer: &[u8], r: ReadResult) -> (s: ReadStep)
    requires
        r matches ReadResult::Read(n) ==> n <= buffer@.len(),
    ensures
        r == ReadResult::Interrupted ==> s is Retry,
        r == ReadResult::Failed ==> s is Fail,
        r == ReadResult::Read(0) ==> s is Finish,
        r matches ReadResult::Read(n) ==> (n > 0 ==> (s matches ReadStep::Send(b) && b@
            == buffer@.take(n as int))),
        stdin_run(seq![(buffer@, r)]) == (match s {
            ReadStep::Send(b) => seq![b@],
            _ => Seq::<Seq<u8>>::empty(),
        }, s is Finish, s is Fail),
{
    proof {
        let one = seq![(buffer@, r)];
        assert(one.drop_first() =~= Seq::<(Seq<u8>, ReadResult)>::empty());
        assert(stdin_run(one.drop_first()) == (Seq::<Seq<u8>>::empty(), false, false));
        assert(one[0] == (buffer@, r));
    }
    match r {
        ReadResult::Interrupted => ReadStep::Retry,
        ReadResult::Failed => ReadStep::Fail,
        ReadResult::Read(0) => ReadStep::Finish,
        ReadResult::Read(n) => ReadStep::Send(copy_range(buffer, 0, n)),
    }
}

/// After a read from a client connection: any error ends the block with an
/// error, no bytes means the client disconnected, and bytes read are sent.
pub fn socket_read_step(buffer: &[u8], r: ReadResult) -> (s: ReadStep)
    requires
        r matches ReadResult::Read(n) ==> n <= buffer@.len(),
    ensures
        r == ReadResult::Interrupted ==> s is Fail,
        r == ReadResult::Failed ==> s is Fail,
        r == ReadResult::Read(0) ==> s is Finish,
        r matches ReadResult::Read(n) ==> (n > 0 ==> (s matches ReadStep::Send(b) && b@
            == buffer@.take(n as int))),
        socket_run(seq![(buffer@, r)], seq![true]) == (match s {
            ReadStep::Send(b) => seq![b@],
            _ => Seq::<Seq<u8>>::empty(),
        }, match s {
            ReadStep::Finish => RunEnd::Finished,
            ReadStep::Fail => RunEnd::ReadFailed,
            _ => RunEnd::Open,
        }),
{
    proof {
        let one = seq![(buffer@, r)];
        assert(one.drop_first() =~= Seq::<(Seq<u8>, ReadResult)>::empty());
        assert(rest_of(seq![true]) =~= Seq::<bool>::empty());
        assert(socket_run(one.drop_first(), rest_of(seq![true])) == (Seq::<Seq<u8>>::empty(), RunEnd::Open));
        assert(one[0] == (buffer@, r));
    }
    match r {
        ReadResult::Interrupted => ReadStep::Fail,
        ReadResult::Failed => ReadStep::Fail,
        ReadResult::Read(0) => ReadStep::Finish,
        ReadResult::Read(n) => ReadStep::Send(copy_range(buffer, 0, n)),
    }
}

/// A standard-input block run over the reads `reads` (each the buffer after
/// the read, and what the read gave), stopping where it stops: the messages
/// it sends, whether the input ended and whether a read failed.
pub open spec fn stdin_run(reads: Seq<(Seq<u8>, ReadResult)>) -> (Seq<Seq<u8>>, bool, bool)
    decreases reads.len(),
{
    if reads.len() == 0 {
        (Seq::empty(), false, false)
    } else {
        let (buffer, r) = reads[0];
        match r {
            ReadResult::Interrupted => stdin_run(reads.drop_first()),
            ReadResult::Failed => (Seq::empty(), false, true),
            ReadResult::Read(n) => if n == 0 {
                (Seq::empty(), true, false)
            } else {
                let rest = stdin_run(reads.drop_first());
                (seq![buffer.take(n as int)] + rest.0, rest.1, rest.2)
            },
        }
    }
}

/// The bytes that the reads `reads` delivered, in order.
pub open spec fn read_data(reads: Seq<(Seq<u8>, ReadResult)>) -> Seq<u8>
    decreases reads.len(),
{
    if reads.len() == 0 {
        Seq::empty()
    } else {
        let (buffer, r) = reads[0];
        match r {
            ReadResult::Read(n) => buffer.take(n as int) + read_data(reads.drop_first()),
            _ => read_data(reads.drop_first()),
        }
    }
}

/// `reads` is how a stream holding `input` was read into a buffer of `size`
/// bytes: reads that were interrupted or gave between one and `size` bytes,
/// then one that gave none, the end of the stream; in all, the bytes of
/// `input`.
pub open spec fn reads_of_input(reads: Seq<(Seq<u8>, ReadResult)>, input: Seq<u8>, size: nat) -> bool {
    &&& reads.len() >= 1
    &&& reads.last().1 == ReadResult::Read(0)
    &&& forall|i: int|
        0 <= i < reads.len() - 1 ==> (#[trigger] reads[i]).1 == ReadResult::Interrupted
            || (reads[i].1 matches ReadResult::Read(n) && 1 <= n <= size && n <= reads[i].0.len())
    &&& read_data(reads) == input
}

/// Over a whole stream a standard-input block sends the input, all of it and
/// in order, in messages of one to `size` bytes each, and ends without
/// error.
pub proof fn lemma_stdin_sends_input(reads: Seq<(Seq<u8>, ReadResult)>, input: Seq<u8>, size: nat)
    requires
        reads_of_input(reads, input, size),
    ensures
        stdin_run(reads).1 && !stdin_run(reads).2,
        concat_chunks(stdin_run(reads).0) == input,
        forall|k: int|
            0 <= k < stdin_run(reads).0.len() ==> 1 <= (#[trigger] stdin_run(reads).0[k]).len()
                <= size,
    decreases reads.len(),
{
    if reads.len() == 1 {
        assert(reads[0].1 == ReadResult::Read(0));
        assert(read_data(reads.drop_first()) == Seq::<u8>::empty());
        assert(input =~= reads[0].0.take(0));
        assert(concat_chunks(Seq::<Seq<u8>>::empty()) == Seq::<u8>::empty());
    } else {
        let rest = reads.drop_first();
        assert(rest.last() == reads.last());
        assert forall|i: int| 0 <= i < rest.len() - 1 implies (#[trigger] rest[i]).1
            == ReadResult::Interrupted || (rest[i].1 matches ReadResult::Read(n) && 1 <= n <= size
            && n <= rest[i].0.len()) by {
            assert(rest[i] == reads[i + 1]);
        }
        lemma_stdin_sends_input(rest, read_data(rest), size);
        let (buffer, r) = reads[0];
        assert(0 < reads.len() - 1);
        if let ReadResult::Read(n) = r {
            let sent = stdin_run(reads).0;
            let later = stdin_run(rest).0;
            assert(sent == seq![buffer.take(n as int)] + later);
            assert(sent.drop_first() =~= later);
            assert(concat_chunks(sent) == buffer.take(n as int) + concat_chunks(later));
            assert forall|k: int| 0 <= k < sent.len() implies 1 <= (#[trigger] sent[k]).len()
                <= size by {
                if k > 0 {
                    assert(sent[k] == later[k - 1]);
                }
            }
        }
    }
}

/// How a run of a socket-reading block ended.
#[derive(Clone, Copy, Debug, PartialEq, Eq, Structural)]
pub enum RunEnd {
    /// The reads given ran out before the run ended.
    Open,
    /// The client disconnected: the block ends without error.
    Finished,
    /// A read failed: the block ends with that error.
    ReadFailed,
    /// Handing a chunk on failed: the block ends with an error.
    ProcessFailed,
}

/// The bytes a read delivered: the first `n` bytes of the buffer for a read
/// of `n` bytes, none otherwise.
pub open spec fn read_chunk(read: (Seq<u8>, ReadResult)) -> Seq<u8> {
    match read.1 {
        ReadResult::Read(n) => read.0.take(n as int),
        _ => Seq::empty(),
    }
}

/// All but the first, or nothing where there is nothing.
pub open spec fn rest_of(handed: Seq<bool>) -> Seq<bool> {
    if handed.len() > 0 {
        handed.drop_first()
    } else {
        handed
    }
}

/// A socket-reading block run over the reads `reads` (each the buffer after
/// the read, and what the read gave), where handing on the chunk of the
/// `i`-th read succeeds as `handed[i]` says: the chunks it hands on, in
/// order, and how the run ended.
pub open spec fn socket_run(reads: Seq<(Seq<u8>, ReadResult)>, handed: Seq<bool>) -> (
    Seq<Seq<u8>>,
    RunEnd,
)
    decreases reads.len(),
{
    if reads.len() == 0 {
        (Seq::empty(), RunEnd::Open)
    } else {
        match reads[0].1 {
            ReadResult::Read(n) => if n == 0 {
                (Seq::empty(), RunEnd::Finished)
            } else if handed.len() > 0 && !handed[0] {
                (seq![read_chunk(reads[0])], RunEnd::ProcessFailed)
            } else {
                let rest = socket_run(reads.drop_first(), rest_of(handed));
                (seq![read_chunk(reads[0])] + rest.0, rest.1)
            },
            _ => (Seq::empty(), RunEnd::ReadFailed),
        }
    }
}

/// `reads` is how a client's bytes `input` were read into a buffer of `size`
/// bytes: reads that each gave between one and `size` bytes, then one that
/// gave none, the client disconnecting.
pub open spec fn client_reads(reads: Seq<(Seq<u8>, ReadResult)>, input: Seq<u8>, size: nat) -> bool {
    &&& reads.len() >= 1
    &&& reads.last().1 == ReadResult::Read(0)
    &&& forall|i: int|
        0 <= i < reads.len() - 1 ==> ((#[trigger] reads[i]).1 matches ReadResult::Read(n) && 1 <= n
            <= size && n <= reads[i].0.len())
    &&& read_data(reads) == input
}

/// Over a whole connection where every chunk is handed on, a socket-reading
/// block hands on the client's bytes, all of them and in order, one chunk
/// per read of one to `size` bytes, and ends without error when the client
/// disconnects.
pub proof fn lemma_socket_hands_on_input(
    reads: Seq<(Seq<u8>, ReadResult)>,
    handed: Seq<bool>,
    input: Seq<u8>,
    size: nat,
)
    requires
        client_reads(reads, input, size),
        handed.len() == reads.len(),
        forall|i: int| 0 <= i < handed.len() ==> #[trigger] handed[i],
    ensures
        socket_run(reads, handed).1 == RunEnd::Finished,
        socket_run(reads, handed).0.len() == reads.len() - 1,
        forall|k: int|
            0 <= k < reads.len() - 1 ==> #[trigger] socket_run(reads, handed).0[k] == read_chunk(
                reads[k],
            ),
        concat_chunks(socket_run(reads, handed).0) == input,
        forall|k: int|
            0 <= k < socket_run(reads, handed).0.len() ==> 1 <= (#[trigger] socket_run(
                reads,
                handed,
            ).0[k]).len() <= size,
    decreases reads.len(),
{
    if reads.len() == 1 {
        assert(reads[0].1 == ReadResult::Read(0));
        assert(read_data(reads.drop_first()) == Seq::<u8>::empty());
        assert(input =~= reads[0].0.take(0));
        assert(concat_chunks(Seq::<Seq<u8>>::empty()) == Seq::<u8>::empty());
    } else {
        let rest = reads.drop_first();
        assert(rest.last() == reads.last());
        assert forall|i: int| 0 <= i < rest.len() - 1 implies ((#[trigger] rest[i]).1 matches ReadResult::Read(
            n,
        ) && 1 <= n <= size && n <= rest[i].0.len()) by {
            assert(rest[i] == reads[i + 1]);
        }
        assert forall|i: int| 0 <= i < rest_of(handed).len() implies #[trigger] rest_of(handed)[i] by {
            assert(rest_of(handed)[i] == handed[i + 1]);
        }
        lemma_socket_hands_on_input(rest, rest_of(handed), read_data(rest), size);
        assert(0 < reads.len() - 1);
        if let ReadResult::Read(n) = reads[0].1 {
            let sent = socket_run(reads, handed).0;
            let later = socket_run(rest, rest_of(handed)).0;
            assert(sent == seq![read_chunk(reads[0])] + later);
            assert(sent.drop_first() =~= later);
            assert(concat_chunks(sent) == read_chunk(reads[0]) + concat_chunks(later));
            assert forall|k: int| 0 <= k < reads.len() - 1 implies #[trigger] sent[k] == read_chunk(
                reads[k],
            ) by {
                if k > 0 {
                    assert(sent[k] == later[k - 1]);
                    assert(rest[k - 1] == reads[k]);
                }
            }
            assert forall|k: int| 0 <= k < sent.len() implies 1 <= (#[trigger] sent[k]).len() <= size by {
                if k > 0 {
                    assert(sent[k] == later[k - 1]);
                }
            }
        }
    }
}

/// Where handing on a chunk fails, a socket-reading block stops there: it
/// has handed on the chunks up to and including that one, reads no more,
/// and ends with an error.
pub proof fn lemma_socket_stops_at_failed_hand_on(
    reads: Seq<(Seq<u8>, ReadResult)>,
    handed: Seq<bool>,
    input: Seq<u8>,
    size: nat,
    i: int,
)
    requires
        client_reads(reads, input, size),
        handed.len() == reads.len(),
        0 <= i < reads.len() - 1,
        !handed[i],
        forall|j: int| 0 <= j < i ==> #[trigger] handed[j],
    ensures
        socket_run(reads, handed).1 == RunEnd::ProcessFailed,
        socket_run(reads, handed).0.len() == i + 1,
        forall|k: int| 0 <= k <= i ==> #[trigger] socket_run(reads, handed).0[k] == read_chunk(reads[k]),
    decreases i,
{
    assert(0 < reads.len() - 1);
    assert(reads[0].1 matches ReadResult::Read(n) && 1 <= n);
    if i > 0 {
        let rest = reads.drop_first();
        assert(rest.last() == reads.last());
        assert forall|j: int| 0 <= j < rest.len() - 1 implies ((#[trigger] rest[j]).1 matches ReadResult::Read(
            n,
        ) && 1 <= n <= size && n <= rest[j].0.len()) by {
            assert(rest[j] == reads[j + 1]);
        }
        assert(read_data(reads) == read_chunk(reads[0]) + read_data(rest));
        assert forall|j: int| 0 <= j < i - 1 implies #[trigger] rest_of(handed)[j] by {
            assert(rest_of(handed)[j] == handed[j + 1]);
        }
        assert(handed[0]);
        lemma_socket_stops_at_failed_hand_on(rest, rest_of(handed), read_data(rest), size, i - 1);
        let sent = socket_run(reads, handed).0;
        let later = socket_run(rest, rest_of(handed)).0;
        assert(sent == seq![read_chunk(reads[0])] + later);
        assert forall|k: int| 0 <= k <= i implies #[trigger] sent[k] == read_chunk(reads[k]) by {
            if k > 0 {
                assert(sent[k] == later[k - 1]);
                assert(rest[k - 1] == reads[k]);
            }
        }
    }
}

} // verus!
