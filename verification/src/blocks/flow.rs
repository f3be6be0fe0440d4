use crate::message::{lemma_integer_order, values, Comparable, Ordered};
use vstd::prelude::*;

verus! {

/// Stores every message it receives; once its input is closed, each trigger
/// sends all stored messages downstream, without clearing them.
pub struct Buffer<T> {
    messages: Vec<T>,
    input_open: bool,
}

impl<T> Buffer<T> {
    /// The messages stored so far, in the order received.
    pub closed spec fn spec_messages(&self) -> Seq<T> {
        self.messages@
    }

    /// Whether the input is still open.
    pub closed spec fn accepting_input(&self) -> bool {
        self.input_open
    }

    /// A buffer that has stored nothing and is reading its input.
    pub fn new() -> (b: Self)
        ensures
            b.spec_messages() == Seq::<T>::empty(),
            b.accepting_input(),
    {
        Buffer { messages: Vec::new(), input_open: true }
    }

    /// The messages stored so far, in the order received.
    pub fn messages(&self) -> (m: &Vec<T>)
        ensures
            m@ == self.spec_messages(),
    {
        &self.messages
    }

    /// Stores a message from the input.
    pub fn on_input(&mut self, message: T)
        requires
            old(self).accepting_input(),
        ensures
            final(self).spec_messages() == old(self).spec_messages().push(message),
            final(self).accepting_input(),
    {
        self.messages.push(message);
    }

    /// The input is closed: from now on the block answers triggers.
    pub fn on_input_closed(&mut self)
        ensures
            final(self).spec_messages() == old(self).spec_messages(),
            !final(self).accepting_input(),
    {
        self.input_open = false;
    }

    /// A trigger arrived: the messages to send, which stay stored.
    pub fn on_trigger(&self) -> (out: &Vec<T>)
        requires
            !self.accepting_input(),
        ensures
            out@ == self.spec_messages(),
    {
        &self.messages
    }
}

/// Stores every message it receives; once its input is closed, each trigger
/// sends the stored messages downstream and clears them.
pub struct Gate<T> {
    messages: Vec<T>,
    input_open: bool,
}

impl<T> Gate<T> {
    /// The messages stored and not yet sent, in the order received.
    pub closed spec fn spec_messages(&self) -> Seq<T> {
        self.messages@
    }

    /// Whether the input is still open.
    pub closed spec fn accepting_input(&self) -> bool {
        self.input_open
    }

    /// A gate that holds nothing and is reading its input.
    pub fn new() -> (g: Self)
        ensures
            g.spec_messages() == Seq::<T>::empty(),
            g.accepting_input(),
    {
        Gate { messages: Vec::new(), input_open: true }
    }

    /// The messages stored and not yet sent.
    pub fn messages(&self) -> (m: &Vec<T>)
        ensures
            m@ == self.spec_messages(),
    {
        &self.messages
    }

    /// Stores a message from the input.
    pub fn on_input(&mut self, message: T)
        requires
            old(self).accepting_input(),
        ensures
            final(self).spec_messages() == old(self).spec_messages().push(message),
            final(self).accepting_input(),
    {
        self.messages.push(message);
    }

    /// The input is closed: triggers are answered from here on.
    pub fn on_input_closed(&mut self)
        ensures
            final(self).spec_messages() == old(self).spec_messages(),
            !final(self).accepting_input(),
    {
        self.input_open = false;
    }

    /// A trigger arrived: the messages to send, all of them released.
    pub fn on_trigger(&mut self) -> (out: Vec<T>)
        requires
            !old(self).accepting_input(),
        ensures
            out@ == old(self).spec_messages(),
            final(self).spec_messages() == Seq::<T>::empty(),
            !final(self).accepting_input(),
    {
        let mut out: Vec<T> = Vec::new();
        std::mem::swap(&mut out, &mut self.messages);
        out
    }
}

/// Collects messages into batches of a given size, sending each batch as soon
/// as it is full, and whatever is left when the input closes.
pub struct Batch<T> {
    batch_size: usize,
    messages: Vec<T>,
}

impl<T> Batch<T> {
    /// The number of messages in a full batch.
    pub closed spec fn spec_batch_size(&self) -> usize {
        self.batch_size
    }

    /// The messages of the batch being filled.
    pub closed spec fn spec_messages(&self) -> Seq<T> {
        self.messages@
    }

    /// A batcher with batches of one message.
    pub fn new() -> (b: Self)
        ensures
            b.spec_batch_size() == 1,
            b.spec_messages() == Seq::<T>::empty(),
    {
        Self::with_params(None)
    }

    /// A batcher with batches of the given size, one message if none is given.
    pub fn with_params(batch_size: Option<usize>) -> (b: Self)
        ensures
            b.spec_batch_size() == match batch_size {
                Some(n) => n,
                None => 1,
            },
            b.spec_messages() == Seq::<T>::empty(),
    {
        let size = match batch_size {
            Some(n) => n,
            None => 1,
        };
        Batch { batch_size: size, messages: Vec::new() }
    }

    /// The number of messages in a full batch.
    pub fn batch_size(&self) -> (n: usize)
        ensures
            n == self.spec_batch_size(),
    {
        self.batch_size
    }

    /// The messages of the batch being filled.
    pub fn messages(&self) -> (m: &Vec<T>)
        ensures
            m@ == self.spec_messages(),
    {
        &self.messages
    }

    /// Adds a message to the batch; returns the batch if that filled it.
    /// Nothing is lost or reordered: what is sent, followed by what is kept,
    /// is what was kept before, followed by the new message.
    pub fn on_input(&mut self, message: T) -> (out: Vec<T>)
        ensures
            final(self).spec_batch_size() == old(self).spec_batch_size(),
            out@ + final(self).spec_messages() == old(self).spec_messages().push(message),
            old(self).spec_messages().len() + 1 == old(self).spec_batch_size() ==> out@
                == old(self).spec_messages().push(message) && final(self).spec_messages()
                == Seq::<T>::empty(),
            old(self).spec_messages().len() + 1 != old(self).spec_batch_size() ==> out@
                == Seq::<T>::empty() && final(self).spec_messages() == old(
                self,
            ).spec_messages().push(message),
            (out@, final(self).spec_messages()) == batch_step(
                old(self).spec_batch_size(),
                old(self).spec_messages(),
                message,
            ),
    {
        self.messages.push(message);
        if self.messages.len() == self.batch_size {
            let mut out: Vec<T> = Vec::new();
            std::mem::swap(&mut out, &mut self.messages);
            assert(out@ + self.messages@ =~= out@);
            out
        } else {
            let out: Vec<T> = Vec::new();
            assert(out@ + self.messages@ =~= self.messages@);
            out
        }
    }

    /// The input is closed: sends what is left of the batch being filled.
    pub fn on_input_closed(&mut self) -> (out: Vec<T>)
        ensures
            out@ == old(self).spec_messages(),
            final(self).spec_messages() == Seq::<T>::empty(),
            final(self).spec_batch_size() == old(self).spec_batch_size(),
    {
        let mut out: Vec<T> = Vec::new();
        std::mem::swap(&mut out, &mut self.messages);
        out
    }
}

/// What a batcher with batches of `n` and the messages `kept` does with a
/// message: the batch it sends (empty unless the message fills it) and the
/// messages it keeps.
pub open spec fn batch_step<T>(n: usize, kept: Seq<T>, message: T) -> (Seq<T>, Seq<T>) {
    if kept.len() + 1 == n {
        (kept.push(message), Seq::empty())
    } else {
        (Seq::empty(), kept.push(message))
    }
}

/// Feeding a batcher the messages one by one: all it sends, in order, and
/// what it keeps at the end.
pub open spec fn batch_feed<T>(n: usize, kept: Seq<T>, xs: Seq<T>) -> (Seq<T>, Seq<T>)
    decreases xs.len(),
{
    if xs.len() == 0 {
        (Seq::empty(), kept)
    } else {
        let s = batch_step(n, kept, xs[0]);
        let r = batch_feed(n, s.1, xs.drop_first());
        (s.0 + r.0, r.1)
    }
}

/// Over a whole stream a batcher loses and reorders nothing: what it sends,
/// then what it keeps, is what it kept, then the messages; and with batches
/// of at least one message, it keeps only what follows the last full batch.
pub proof fn lemma_batch_stream<T>(n: usize, kept: Seq<T>, xs: Seq<T>)
    ensures
        batch_feed(n, kept, xs).0 + batch_feed(n, kept, xs).1 == kept + xs,
        n >= 1 && kept.len() < n ==> batch_feed(n, kept, xs).1.len() as int == ((kept.len()
            + xs.len()) as int) % (n as int),
    decreases xs.len(),
{
    if xs.len() == 0 {
        assert(Seq::<T>::empty() + kept =~= kept + xs);
        if n >= 1 && kept.len() < n {
            vstd::arithmetic::div_mod::lemma_small_mod(kept.len(), n as nat);
        }
    } else {
        let s = batch_step(n, kept, xs[0]);
        lemma_batch_stream(n, s.1, xs.drop_first());
        let r = batch_feed(n, s.1, xs.drop_first());
        assert(s.0 + s.1 == kept.push(xs[0]));
        assert(s.0 + r.0 + r.1 =~= s.0 + (r.0 + r.1));
        assert(kept.push(xs[0]) + xs.drop_first() =~= kept + xs);
        if n >= 1 && kept.len() < n {
            let m = xs.len() - 1;
            if kept.len() + 1 == n {
                vstd::arithmetic::div_mod::lemma_mod_add_multiples_vanish(m as int, n as int);
                assert(kept.len() + xs.len() == n + m);
            }
        }
    }
}

/// Sends each distinct message once, in the order first received, when its
/// input closes.
pub struct Distinct<T> {
    messages: Vec<T>,
}

impl<T: Comparable> Distinct<T> {
    /// The distinct messages received so far, in the order first received.
    pub closed spec fn spec_messages(&self) -> Seq<T> {
        self.messages@
    }

    /// No two stored messages have the same value.
    pub closed spec fn wf(&self) -> bool {
        values(self.messages@).no_duplicates()
    }

    /// A block that has received nothing.
    pub fn new() -> (d: Self)
        ensures
            d.spec_messages() == Seq::<T>::empty(),
            d.wf(),
    {
        let d = Distinct { messages: Vec::new() };
        assert(values(d.messages@) =~= Seq::<T::V>::empty());
        d
    }

    /// The distinct messages received so far.
    pub fn messages(&self) -> (m: &Vec<T>)
        ensures
            m@ == self.spec_messages(),
    {
        &self.messages
    }

    /// Keeps a message unless one of the same value was received before.
    pub fn on_input(&mut self, message: T)
        requires
            old(self).wf(),
        ensures
            final(self).wf(),
            values(old(self).spec_messages()).contains(message@) ==> final(self).spec_messages()
                == old(self).spec_messages(),
            !values(old(self).spec_messages()).contains(message@) ==> final(self).spec_messages()
                == old(self).spec_messages().push(message),
            values(final(self).spec_messages()) == distinct_step(
                values(old(self).spec_messages()),
                message@,
            ),
    {
        let mut i: usize = 0;
        while i < self.messages.len()
            invariant
                i <= self.messages@.len(),
                self.wf(),
                self.messages@ == old(self).messages@,
                forall|j: int| 0 <= j < i ==> self.messages@[j]@ != message@,
            decreases self.messages@.len() - i,
        {
            if self.messages[i].same_as(&message) {
                assert(values(self.messages@)[i as int] == message@);
                return;
            }
            i = i + 1;
        }
        assert(!values(self.messages@).contains(message@));
        let ghost before = values(self.messages@);
        self.messages.push(message);
        assert(values(self.messages@) =~= before.push(message@));
    }

    /// The input is closed: sends the distinct messages, leaving none stored.
    pub fn on_input_closed(&mut self) -> (out: Vec<T>)
        requires
            old(self).wf(),
        ensures
            out@ == old(self).spec_messages(),
            values(out@).no_duplicates(),
            final(self).spec_messages() == Seq::<T>::empty(),
            final(self).wf(),
    {
        let mut out: Vec<T> = Vec::new();
        std::mem::swap(&mut out, &mut self.messages);
        assert(values(self.messages@) =~= Seq::<T::V>::empty());
        out
    }
}

/// What a deduplicator that keeps the values `kept` keeps after a message of
/// value `x`.
pub open spec fn distinct_step<V>(kept: Seq<V>, x: V) -> Seq<V> {
    if kept.contains(x) {
        kept
    } else {
        kept.push(x)
    }
}

/// What a deduplicator that keeps `kept` keeps after the values `xs`, fed
/// one by one.
pub open spec fn distinct_feed<V>(kept: Seq<V>, xs: Seq<V>) -> Seq<V>
    decreases xs.len(),
{
    if xs.len() == 0 {
        kept
    } else {
        distinct_step(distinct_feed(kept, xs.drop_last()), xs.last())
    }
}

/// `r` is the first occurrences of the values of `xs`, in order: it holds
/// each value of `xs` exactly once, and one value stands before another
/// exactly where its first occurrence in `xs` comes first.
pub open spec fn first_occurrences<V>(xs: Seq<V>, r: Seq<V>) -> bool {
    &&& r.no_duplicates()
    &&& forall|v: V| r.contains(v) <==> xs.contains(v)
    &&& forall|i: int, j: int, q: int|
        #![trigger r[i], r[j], xs[q]]
        0 <= i < j < r.len() && 0 <= q < xs.len() && xs[q] == r[j] ==> occurs_before(xs, q, r[i])
}

/// `v` occurs in `xs` before index `q`.
pub open spec fn occurs_before<V>(xs: Seq<V>, q: int, v: V) -> bool {
    exists|p: int| 0 <= p < q && xs[p] == v
}

/// Over a stream a deduplicator keeps the first occurrences, in order: from
/// nothing, what it keeps after `xs` holds each value of `xs` exactly once,
/// and one value stands before another exactly where its first occurrence
/// in `xs` comes first.
pub proof fn lemma_distinct_first_occurrences<V>(xs: Seq<V>)
    ensures
        first_occurrences(xs, distinct_feed(Seq::<V>::empty(), xs)),
    decreases xs.len(),
{
    let r = distinct_feed(Seq::<V>::empty(), xs);
    if xs.len() > 0 {
        let ys = xs.drop_last();
        let x = xs.last();
        lemma_distinct_first_occurrences(ys);
        let r0 = distinct_feed(Seq::<V>::empty(), ys);
        assert(xs =~= ys.push(x));
        assert(r == distinct_step(r0, x));
        assert forall|v: V| r.contains(v) <==> xs.contains(v) by {
            if xs.contains(v) {
                let k = choose|k: int| 0 <= k < xs.len() && xs[k] == v;
                if k < ys.len() {
                    assert(ys[k] == v);
                    assert(r0.contains(v));
                    let m = choose|m: int| 0 <= m < r0.len() && r0[m] == v;
                    assert(r[m] == v);
                } else {
                    assert(v == x);
                    if !r0.contains(x) {
                        assert(r[r0.len() as int] == v);
                    } else {
                        let m = choose|m: int| 0 <= m < r0.len() && r0[m] == v;
                        assert(r[m] == v);
                    }
                }
            }
            if r.contains(v) {
                let m = choose|m: int| 0 <= m < r.len() && r[m] == v;
                if m < r0.len() {
                    assert(r0[m] == v);
                    assert(r0.contains(v));
                    let k = choose|k: int| 0 <= k < ys.len() && ys[k] == v;
                    assert(xs[k] == v);
                } else {
                    assert(v == x);
                    assert(xs[xs.len() - 1] == v);
                }
            }
        }
        if !r0.contains(x) {
            assert forall|a: int, b: int| 0 <= a < r.len() && 0 <= b < r.len() && a != b implies r[a]
                != r[b] by {
                if a < r0.len() && b < r0.len() {
                } else if a < r0.len() {
                    assert(r0[a] == r[a]);
                } else {
                    assert(r0[b] == r[b]);
                }
            }
        }
        assert forall|i: int, j: int, q: int|
            #![trigger r[i], r[j], xs[q]]
            0 <= i < j < r.len() && 0 <= q < xs.len() && xs[q] == r[j] implies occurs_before(
                xs,
                q,
                r[i],
            ) by {
            if j < r0.len() {
                assert(r[j] == r0[j] && r[i] == r0[i]);
                if q < ys.len() {
                    assert(ys[q] == r0[j]);
                    let p = choose|p: int| 0 <= p < q && ys[p] == r0[i];
                    assert(xs[p] == r[i]);
                } else {
                    assert(r0.contains(r0[i]));
                    let p = choose|p: int| 0 <= p < ys.len() && ys[p] == r0[i];
                    assert(xs[p] == r[i]);
                }
            } else {
                assert(!r0.contains(x));
                assert(r[j] == x);
                if q < ys.len() {
                    assert(ys[q] == x);
                    assert(ys.contains(x));
                    assert(r0.contains(x));
                }
                assert(i < r0.len());
                assert(r0[i] == r[i]);
                assert(r0.contains(r0[i]));
                let p = choose|p: int| 0 <= p < ys.len() && ys[p] == r0[i];
                assert(xs[p] == r[i]);
            }
        }
        assert(r.no_duplicates());
        assert(forall|v: V| r.contains(v) <==> xs.contains(v));
        assert(first_occurrences(xs, r));
    } else {
        assert(r =~= Seq::<V>::empty());
        assert(first_occurrences(xs, r));
    }
}

/// Sends every message of its first input, then every message of its second
/// input, once both are closed.
pub struct Concat<T> {
    first: Vec<T>,
    second: Vec<T>,
}

impl<T> Concat<T> {
    /// The messages received on the first input.
    pub closed spec fn spec_first(&self) -> Seq<T> {
        self.first@
    }

    /// The messages received on the second input.
    pub closed spec fn spec_second(&self) -> Seq<T> {
        self.second@
    }

    /// A block that has received nothing.
    pub fn new() -> (c: Self)
        ensures
            c.spec_first() == Seq::<T>::empty(),
            c.spec_second() == Seq::<T>::empty(),
    {
        Concat { first: Vec::new(), second: Vec::new() }
    }

    /// Stores a message of the first input.
    pub fn on_first_input(&mut self, message: T)
        ensures
            final(self).spec_first() == old(self).spec_first().push(message),
            final(self).spec_second() == old(self).spec_second(),
    {
        self.first.push(message);
    }

    /// Stores a message of the second input.
    pub fn on_second_input(&mut self, message: T)
        ensures
            final(self).spec_first() == old(self).spec_first(),
            final(self).spec_second() == old(self).spec_second().push(message),
    {
        self.second.push(message);
    }

    /// Both inputs are closed: the messages to send, first input's first.
    pub fn on_inputs_closed(self) -> (out: Vec<T>)
        ensures
            out@ == self.spec_first() + self.spec_second(),
    {
        let mut out = self.first;
        let mut second = self.second;
        out.append(&mut second);
        out
    }
}

/// Which output a message goes to.
#[derive(Clone, Copy, Debug, PartialEq, Eq, Structural)]
pub enum SplitTarget {
    First,
    Second,
}

/// Sends messages alternately to its first and second output, starting with
/// the first.
pub struct Split {
    message_count: u128,
}

impl Split {
    /// How many messages the block has sent on.
    pub closed spec fn spec_message_count(&self) -> u128 {
        self.message_count
    }

    /// A block that has sent nothing on.
    pub fn new() -> (s: Self)
        ensures
            s.spec_message_count() == 0,
    {
        Split { message_count: 0 }
    }

    /// How many messages the block has sent on.
    pub fn message_count(&self) -> (n: u128)
        ensures
            n == self.spec_message_count(),
    {
        self.message_count
    }

    /// Where the next message goes: even-numbered messages (counting from
    /// zero) to the first output, odd-numbered ones to the second.
    pub fn on_input(&mut self) -> (t: SplitTarget)
        requires
            old(self).spec_message_count() < u128::MAX,
        ensures
            t == (if old(self).spec_message_count() % 2 == 0 {
                SplitTarget::First
            } else {
                SplitTarget::Second
            }),
            final(self).spec_message_count() == old(self).spec_message_count() + 1,
            t == split_target(old(self).spec_message_count() as int),
    {
        let t = if self.message_count % 2 == 0 {
            SplitTarget::First
        } else {
            SplitTarget::Second
        };
        self.message_count = self.message_count + 1;
        t
    }
}

/// Where a splitter that has sent on `count` messages sends the next one.
pub open spec fn split_target(count: int) -> SplitTarget {
    if count % 2 == 0 {
        SplitTarget::First
    } else {
        SplitTarget::Second
    }
}

/// Where a splitter that has sent on `count` messages sends the next `k`,
/// fed one by one.
pub open spec fn split_feed(count: int, k: nat) -> Seq<SplitTarget>
    decreases k,
{
    if k == 0 {
        Seq::empty()
    } else {
        seq![split_target(count)] + split_feed(count + 1, (k - 1) as nat)
    }
}

/// Over a stream the messages alternate between the outputs by count
/// parity: the `i`-th of them goes to the first output exactly when
/// `count + i` is even, so no two in a row go to the same output.
pub proof fn lemma_split_alternates(count: int, k: nat)
    ensures
        split_feed(count, k).len() == k,
        forall|i: int|
            0 <= i < k ==> (split_feed(count, k)[i] == SplitTarget::First <==> (count + i) % 2 == 0),
        forall|i: int|
            0 <= i < k - 1 ==> #[trigger] split_feed(count, k)[i] != split_feed(count, k)[i + 1],
    decreases k,
{
    if k > 0 {
        lemma_split_alternates(count + 1, (k - 1) as nat);
        let t = split_feed(count + 1, (k - 1) as nat);
        assert forall|i: int|
            0 <= i < k implies (split_feed(count, k)[i] == SplitTarget::First <==> (count + i) % 2
                == 0) by {
            if i > 0 {
                assert(split_feed(count, k)[i] == t[i - 1]);
                assert(count + 1 + (i - 1) == count + i);
            }
        }
        assert forall|i: int| 0 <= i < k - 1 implies #[trigger] split_feed(count, k)[i] != split_feed(
            count,
            k,
        )[i + 1] by {
            assert((count + i) % 2 == 0 <==> (count + i + 1) % 2 != 0);
        }
    }
}

/// The messages are in order: each comes no later than every one after it.
pub open spec fn in_order<T: Ordered>(s: Seq<T>) -> bool {
    forall|i: int, j: int| 0 <= i < j < s.len() ==> T::spec_at_most(#[trigger] s[i]@, #[trigger] s[j]@)
}

/// Of two messages in order, the earlier comes no later than the later.
proof fn lemma_in_order_pair<T: Ordered>(s: Seq<T>, i: int, j: int)
    requires
        in_order(s),
        0 <= i < j < s.len(),
    ensures
        T::spec_at_most(s[i]@, s[j]@),
{
}

/// Integer messages in order are in ascending numeric order.
pub proof fn lemma_in_order_u64_ascending(s: Seq<u64>)
    requires
        in_order(s),
    ensures
        forall|i: int, j: int| 0 <= i < j < s.len() ==> #[trigger] s[i] <= #[trigger] s[j],
{
    lemma_integer_order();
    assert forall|i: int, j: int| 0 <= i < j < s.len() implies #[trigger] s[i] <= #[trigger] s[j] by {
        lemma_in_order_pair(s, i, j);
        assert(s[i]@ == s[i] && s[j]@ == s[j]);
    }
}

/// Integer messages in order are in ascending numeric order.
pub proof fn lemma_in_order_i64_ascending(s: Seq<i64>)
    requires
        in_order(s),
    ensures
        forall|i: int, j: int| 0 <= i < j < s.len() ==> #[trigger] s[i] <= #[trigger] s[j],
{
    lemma_integer_order();
    assert forall|i: int, j: int| 0 <= i < j < s.len() implies #[trigger] s[i] <= #[trigger] s[j] by {
        lemma_in_order_pair(s, i, j);
        assert(s[i]@ == s[i] && s[j]@ == s[j]);
    }
}

/// Integer messages in order are in ascending numeric order.
pub proof fn lemma_in_order_i32_ascending(s: Seq<i32>)
    requires
        in_order(s),
    ensures
        forall|i: int, j: int| 0 <= i < j < s.len() ==> #[trigger] s[i] <= #[trigger] s[j],
{
    lemma_integer_order();
    assert forall|i: int, j: int| 0 <= i < j < s.len() implies #[trigger] s[i] <= #[trigger] s[j] by {
        lemma_in_order_pair(s, i, j);
        assert(s[i]@ == s[i] && s[j]@ == s[j]);
    }
}

/// `ys` is `xs` rearranged stably, `ys[k]` being `xs[p[k]]`: every message
/// is taken once, and of two messages that the order ranks equal, the one
/// received first comes first.
pub open spec fn stable_arrangement<T: Ordered>(xs: Seq<T>, ys: Seq<T>, p: Seq<int>) -> bool {
    &&& p.len() == ys.len() == xs.len()
    &&& forall|k: int| 0 <= k < p.len() ==> 0 <= #[trigger] p[k] < xs.len() && ys[k] == xs[p[k]]
    &&& forall|a: int, b: int| 0 <= a < b < p.len() ==> #[trigger] p[a] != #[trigger] p[b]
    &&& forall|a: int, b: int|
        0 <= a < b < p.len() && T::spec_at_most(#[trigger] ys[b]@, #[trigger] ys[a]@) ==> p[a] < p[b]
}

/// Sends every message it received, in ascending order, when its input closes.
pub struct Sort<T> {
    messages: Vec<T>,
}

impl<T: Ordered> Sort<T> {
    /// The messages received so far, in the order received.
    pub closed spec fn spec_messages(&self) -> Seq<T> {
        self.messages@
    }

    /// A block that has received nothing.
    pub fn new() -> (s: Self)
        ensures
            s.spec_messages() == Seq::<T>::empty(),
    {
        Sort { messages: Vec::new() }
    }

    /// The messages received so far.
    pub fn messages(&self) -> (m: &Vec<T>)
        ensures
            m@ == self.spec_messages(),
    {
        &self.messages
    }

    /// Stores a message.
    pub fn on_input(&mut self, message: T)
        ensures
            final(self).spec_messages() == old(self).spec_messages().push(message),
    {
        self.messages.push(message);
    }

    /// The input is closed: the messages to send, the received ones in
    /// ascending order, messages that rank equal in the order received; none
    /// are left stored.
    pub fn on_input_closed(&mut self) -> (out: Vec<T>)
        ensures
            out@.to_multiset() == old(self).spec_messages().to_multiset(),
            in_order(out@),
            exists|p: Seq<int>| stable_arrangement(old(self).spec_messages(), out@, p),
            final(self).spec_messages() == Seq::<T>::empty(),
    {
        broadcast use vstd::seq_lib::group_to_multiset_ensures;

        let mut input: Vec<T> = Vec::new();
        std::mem::swap(&mut input, &mut self.messages);
        let ghost all = input@;
        let ghost mut perm: Seq<int> = Seq::empty();
        let mut out: Vec<T> = Vec::new();
        while input.len() > 0
            invariant
                out@.to_multiset().add(input@.to_multiset()) == all.to_multiset(),
                in_order(out@),
                self.messages@ == Seq::<T>::empty(),
                input@ == all.take(input@.len() as int),
                input@.len() <= all.len(),
                perm.len() == out@.len(),
                out@.len() + input@.len() == all.len(),
                forall|k: int|
                    0 <= k < perm.len() ==> input@.len() <= #[trigger] perm[k] < all.len() && out@[k]
                        == all[perm[k]],
                forall|a: int, b: int| 0 <= a < b < perm.len() ==> #[trigger] perm[a] != #[trigger] perm[b],
                forall|a: int, b: int|
                    0 <= a < b < perm.len() && T::spec_at_most(#[trigger] out@[b]@, #[trigger] out@[a]@)
                        ==> perm[a] < perm[b],
            decreases input@.len(),
        {
            let ghost before = input@;
            let x = input.pop().unwrap();
            let ghost idx = input@.len() as int;
            proof {
                assert(before =~= input@.push(x));
                assert(input@ =~= all.take(idx));
                assert(x == all[idx]);
            }
            let mut j: usize = 0;
            while j < out.len() && !x.at_most(&out[j])
                invariant
                    j <= out@.len(),
                    forall|k: int| 0 <= k < j ==> !T::spec_at_most(x@, #[trigger] out@[k]@),
                decreases out@.len() - j,
            {
                j = j + 1;
            }
            let ghost old_out = out@;
            let ghost old_perm = perm;
            out.insert(j, x);
            proof {
                perm = old_perm.insert(j as int, idx);
                vstd::seq_lib::to_multiset_insert(old_out, j as int, x);
                vstd::seq_lib::to_multiset_build(input@, x);
                assert(out@ == old_out.insert(j as int, x));
                assert(before.to_multiset() == input@.to_multiset().insert(x));
                assert(out@.to_multiset().add(input@.to_multiset()) =~= old_out.to_multiset().add(
                    before.to_multiset(),
                ));
                assert forall|a: int, b: int| 0 <= a < b < out@.len() implies T::spec_at_most(
                    #[trigger] out@[a]@,
                    #[trigger] out@[b]@,
                ) by {
                    if b < j {
                        assert(out@[a] == old_out[a] && out@[b] == old_out[b]);
                    } else if b == j {
                        assert(out@[a] == old_out[a]);
                        T::lemma_at_most_total(x@, old_out[a]@);
                    } else if a == j {
                        assert(out@[b] == old_out[b - 1]);
                        assert(T::spec_at_most(x@, old_out[j as int]@));
                        if b - 1 > j {
                            T::lemma_at_most_transitive(x@, old_out[j as int]@, old_out[b - 1]@);
                        }
                    } else if a < j {
                        assert(out@[a] == old_out[a] && out@[b] == old_out[b - 1]);
                    } else {
                        assert(out@[a] == old_out[a - 1] && out@[b] == old_out[b - 1]);
                    }
                }
                assert forall|k: int| 0 <= k < perm.len() implies input@.len() <= #[trigger] perm[k]
                    < all.len() && out@[k] == all[perm[k]] by {
                    if k < j {
                        assert(perm[k] == old_perm[k] && out@[k] == old_out[k]);
                    } else if k > j {
                        assert(perm[k] == old_perm[k - 1] && out@[k] == old_out[k - 1]);
                    }
                }
                assert forall|a: int, b: int| 0 <= a < b < perm.len() implies #[trigger] perm[a]
                    != #[trigger] perm[b] by {
                    if a < j && b < j {
                    } else if a < j && b == j {
                        assert(perm[a] == old_perm[a]);
                    } else if a < j {
                        assert(perm[a] == old_perm[a] && perm[b] == old_perm[b - 1]);
                    } else if a == j {
                        assert(perm[b] == old_perm[b - 1]);
                    } else {
                        assert(perm[a] == old_perm[a - 1] && perm[b] == old_perm[b - 1]);
                    }
                }
                assert forall|a: int, b: int|
                    0 <= a < b < perm.len() && T::spec_at_most(
                        #[trigger] out@[b]@,
                        #[trigger] out@[a]@,
                    ) implies perm[a] < perm[b] by {
                    if b < j {
                        assert(out@[a] == old_out[a] && out@[b] == old_out[b]);
                    } else if b == j {
                        assert(out@[a] == old_out[a]);
                    } else if a == j {
                        assert(perm[b] == old_perm[b - 1]);
                    } else if a < j {
                        assert(out@[a] == old_out[a] && out@[b] == old_out[b - 1]);
                        assert(perm[a] == old_perm[a] && perm[b] == old_perm[b - 1]);
                    } else {
                        assert(out@[a] == old_out[a - 1] && out@[b] == old_out[b - 1]);
                        assert(perm[a] == old_perm[a - 1] && perm[b] == old_perm[b - 1]);
                    }
                }
            }
        }
        proof {
            assert(input@.to_multiset() =~= vstd::multiset::Multiset::empty());
            assert(stable_arrangement(all, out@, perm));
        }
        out
    }
}

} // verus!
