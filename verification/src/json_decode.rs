use crate::fields::{
    field_put, key_less, lemma_key_less_transitive, put_field, sorted_fields, str_less,
};
use crate::strings::str_eq;
use crate::value::{Kind, ListValue, Struct, Value};
use vstd::prelude::*;

verus! {

/// The type of the next JSON value, as a reader sees it.
#[derive(Clone, Copy, Debug, PartialEq, Eq, Structural)]
pub enum JsonType {
    Null,
    Boolean,
    Number,
    String,
    Array,
    Object,
}

/// The next call to make on the JSON stream reader.
#[derive(Clone, Copy, Debug, PartialEq, Eq, Structural)]
pub enum JsonRead {
    /// Look at the type of the next value.
    Peek,
    ReadNull,
    ReadBool,
    /// Read a number as its text (and parse it).
    ReadNumber,
    ReadString,
    BeginArray,
    BeginObject,
    /// Ask whether the array has another item.
    HasNextItem,
    /// Ask whether the object has another member.
    HasNextMember,
    /// Read the name of the next member.
    ReadName,
    EndArray,
    EndObject,
}

/// What a call on the reader gave.
#[derive(Debug)]
pub enum JsonEvent {
    Peeked(JsonType),
    Null,
    Bool(bool),
    /// The text of a number, with the bits of the 64-bit float that it
    /// parses to, or `None` where it does not parse.
    Number(String, Option<u64>),
    Str(String),
    Began,
    HasNext(bool),
    Name(String),
    Ended,
}

/// Why decoding failed.
#[derive(Debug)]
pub enum JsonDecodeError {
    /// A number that does not parse as a 64-bit float.
    UnsupportedNumber(String),
    /// An event that is not the answer to the call asked for, or one after
    /// decoding ended.
    UnexpectedEvent,
}

/// What the decoder does next.
#[derive(Debug)]
pub enum JsonStep {
    Read(JsonRead),
    Done(Value),
    Failed(JsonDecodeError),
}

/// A container being filled: a list with its items so far, or a structure
/// with its fields so far and the name of the member being read, if any.
#[derive(Debug)]
pub enum Frame {
    List(Vec<Value>),
    Object(Vec<(String, Value)>, Option<String>),
}

/// The bits of the 64-bit float that is not a number, as `f64::NAN`.
pub const NAN_BITS: u64 = 0x7ff8_0000_0000_0000;

/// The bits of positive infinity.
pub const INFINITY_BITS: u64 = 0x7ff0_0000_0000_0000;

/// The bits of negative infinity.
pub const NEG_INFINITY_BITS: u64 = 0xfff0_0000_0000_0000;

/// The value of a number read as `text`, parsed as `parsed`: the names of
/// the values that are not finite give those values; any other text its
/// parse, if it parses.
pub open spec fn number_value(text: Seq<char>, parsed: Option<u64>) -> Option<u64> {
    if text == "NaN"@ {
        Some(NAN_BITS)
    } else if text == "-Infinity"@ {
        Some(NEG_INFINITY_BITS)
    } else if text == "Infinity"@ {
        Some(INFINITY_BITS)
    } else {
        parsed
    }
}

/// The call that reads a value of the given type.
pub open spec fn read_for(t: JsonType) -> JsonRead {
    match t {
        JsonType::Null => JsonRead::ReadNull,
        JsonType::Boolean => JsonRead::ReadBool,
        JsonType::Number => JsonRead::ReadNumber,
        JsonType::String => JsonRead::ReadString,
        JsonType::Array => JsonRead::BeginArray,
        JsonType::Object => JsonRead::BeginObject,
    }
}

/// The value that a scalar event gives, where it answers `r`.
pub open spec fn scalar_of(r: JsonRead, e: JsonEvent) -> Option<Value> {
    match (r, e) {
        (JsonRead::ReadNull, JsonEvent::Null) => Some(Value { kind: Some(Kind::NullValue(0)) }),
        (JsonRead::ReadBool, JsonEvent::Bool(b)) => Some(Value { kind: Some(Kind::BoolValue(b)) }),
        (JsonRead::ReadString, JsonEvent::Str(s)) => Some(
            Value { kind: Some(Kind::StringValue(s)) },
        ),
        _ => None,
    }
}

/// Decodes one JSON value from the calls made on a stream reader: it says
/// which call to make next and takes what the call gave.
pub struct JsonDecoder {
    frames: Vec<Frame>,
    awaiting: Option<JsonRead>,
}

/// Every value in `v`, `v` included, has a kind, and every structure in it
/// has its fields ordered by name, each name once.
pub open(crate) spec fn well_formed_value(v: Value) -> bool
    decreases v,
{
    match v.kind {
        None => false,
        Some(Kind::ListValue(lv)) => forall|i: int|
            0 <= i < lv.values@.len() ==> well_formed_value(#[trigger] lv.values@[i]),
        Some(Kind::StructValue(st)) => sorted_fields(st.fields@) && forall|i: int|
            0 <= i < st.fields@.len() ==> well_formed_value(#[trigger] st.fields@[i].1),
        _ => true,
    }
}

/// The fields' values are all well formed.
pub open spec fn fields_well_formed(fs: Seq<(String, Value)>) -> bool {
    forall|i: int| 0 <= i < fs.len() ==> well_formed_value(#[trigger] fs[i].1)
}

/// A container being filled holds only well-formed values, and a structure
/// keeps its fields ordered by name.
pub open spec fn frame_ok(f: Frame) -> bool {
    match f {
        Frame::List(vs) => forall|i: int| 0 <= i < vs@.len() ==> well_formed_value(#[trigger] vs@[i]),
        Frame::Object(fs, _) => sorted_fields(fs@) && fields_well_formed(fs@),
    }
}

/// Every open container is as `frame_ok` says.
pub open spec fn frames_wf(frames: Seq<Frame>) -> bool {
    forall|i: int| 0 <= i < frames.len() ==> frame_ok(#[trigger] frames[i])
}

/// Setting a well-formed value in well-formed fields leaves them well formed.
proof fn lemma_field_put_well_formed(fs: Seq<(String, Value)>, k: Seq<char>, v: Value, gs: Seq<(String, Value)>)
    requires
        field_put(fs, k, v, gs),
        fields_well_formed(fs),
        well_formed_value(v),
    ensures
        fields_well_formed(gs),
{
    if exists|i: int|
        0 <= i < fs.len() && fs[i].0@ == k && gs.len() == fs.len() && gs[i].0@ == k && gs[i].1
            == v && forall|j: int| 0 <= j < fs.len() && j != i ==> gs[j] == fs[j] {
        let i = choose|i: int|
            0 <= i < fs.len() && fs[i].0@ == k && gs.len() == fs.len() && gs[i].0@ == k && gs[i].1
                == v && forall|j: int| 0 <= j < fs.len() && j != i ==> gs[j] == fs[j];
        assert forall|j: int| 0 <= j < gs.len() implies well_formed_value(#[trigger] gs[j].1) by {
            if j != i {
                assert(gs[j] == fs[j]);
            }
        }
    } else {
        let p = choose|p: int|
            0 <= p <= fs.len() && gs.len() == fs.len() + 1 && gs[p].0@ == k && gs[p].1 == v && (
            forall|j: int| 0 <= j < p ==> gs[j] == fs[j]) && (forall|j: int|
                p < j < gs.len() ==> gs[j] == fs[j - 1]);
        assert forall|j: int| 0 <= j < gs.len() implies well_formed_value(#[trigger] gs[j].1) by {
            if j < p {
                assert(gs[j] == fs[j]);
            } else if j > p {
                assert(gs[j] == fs[j - 1]);
            }
        }
    }
}

/// A well-formed value can be encoded: every value in it has a kind.
pub proof fn lemma_well_formed_has_kinds(v: Value)
    requires
        well_formed_value(v),
    ensures
        crate::json::has_kinds(v),
    decreases v,
{
    match v.kind {
        Some(Kind::ListValue(lv)) => {
            assert forall|i: int| 0 <= i < lv.values@.len() implies crate::json::has_kinds(
                #[trigger] lv.values@[i],
            ) by {
                assert(decreases_to!(v => lv.values@[i])) by {
                    let k = v.kind->Some_0;
                    assert(decreases_to!(v => v.kind));
                    assert(decreases_to!(v.kind => k));
                    assert(decreases_to!(k => k->ListValue_0));
                    assert(decreases_to!(lv => lv.values));
                    assert(decreases_to!(lv.values => lv.values@));
                    assert(decreases_to!(lv.values@ => lv.values@[i]));
                }
                lemma_well_formed_has_kinds(lv.values@[i]);
            }
        },
        Some(Kind::StructValue(st)) => {
            assert forall|i: int| 0 <= i < st.fields@.len() implies crate::json::has_kinds(
                #[trigger] st.fields@[i].1,
            ) by {
                assert(decreases_to!(v => st.fields@[i].1)) by {
                    let k = v.kind->Some_0;
                    let f = st.fields@[i];
                    assert(decreases_to!(v => v.kind));
                    assert(decreases_to!(v.kind => k));
                    assert(decreases_to!(k => k->StructValue_0));
                    assert(decreases_to!(st => st.fields));
                    assert(decreases_to!(st.fields => st.fields@));
                    assert(decreases_to!(st.fields@ => f));
                    assert(decreases_to!(f => f.1));
                }
                lemma_well_formed_has_kinds(st.fields@[i].1);
            }
        },
        _ => {},
    }
}

/// The state after the value `v` is complete, with `frames` open: with no
/// open container, the decoding is done with `v`; in a list, `v` is its next
/// item; in a structure whose member name was read, `v` is that member's
/// value; in a structure without one, the decoding fails.
pub open spec fn completed(
    frames: Seq<Frame>,
    v: Value,
    next: JsonDecoder,
    step: JsonStep,
) -> bool {
    if frames.len() == 0 {
        &&& next.stack().len() == 0
        &&& next.expected() is None
        &&& step == JsonStep::Done(v)
    } else {
        match frames.last() {
            Frame::List(vs) => {
                &&& next.stack().len() == frames.len()
                &&& next.stack().drop_last() == frames.drop_last()
                &&& next.stack().last() matches Frame::List(ws) && ws@ == vs@.push(v)
                &&& next.expected() == Some(JsonRead::HasNextItem)
                &&& step == JsonStep::Read(JsonRead::HasNextItem)
            },
            Frame::Object(fs, Some(k)) => {
                &&& next.stack().len() == frames.len()
                &&& next.stack().drop_last() == frames.drop_last()
                &&& next.stack().last() matches Frame::Object(gs, None) && field_put(
                    fs@,
                    k@,
                    v,
                    gs@,
                )
                &&& next.expected() == Some(JsonRead::HasNextMember)
                &&& step == JsonStep::Read(JsonRead::HasNextMember)
            },
            Frame::Object(_, None) => {
                &&& next.expected() is None
                &&& step matches JsonStep::Failed(JsonDecodeError::UnexpectedEvent)
            },
        }
    }
}

/// The decoder asks for `r` next, with its frames as in `frames`.
pub open spec fn asks(next: JsonDecoder, frames: Seq<Frame>, r: JsonRead, step: JsonStep) -> bool {
    &&& next.stack() == frames
    &&& next.expected() == Some(r)
    &&& step == JsonStep::Read(r)
}

/// The decoder stops on an unexpected event.
pub open spec fn rejects(next: JsonDecoder, step: JsonStep) -> bool {
    &&& next.expected() is None
    &&& step matches JsonStep::Failed(JsonDecodeError::UnexpectedEvent)
}

/// One step of decoding: the decoder `d`, asked for the event `e`, becomes
/// `n` and takes the step `step`.
pub open(crate) spec fn decode_step(d: JsonDecoder, e: JsonEvent, n: JsonDecoder, step: JsonStep) -> bool {
    let fs = d.stack();
    match d.expected() {
        None => rejects(n, step),
        Some(r) => match (r, e) {
            (JsonRead::Peek, JsonEvent::Peeked(t)) => asks(n, fs, read_for(t), step),
            (JsonRead::ReadNumber, JsonEvent::Number(text, parsed)) => match number_value(
                text@,
                parsed,
            ) {
                Some(bits) => completed(fs, Value { kind: Some(Kind::NumberValue(bits)) }, n, step),
                None => {
                    &&& n.expected() is None
                    &&& step matches JsonStep::Failed(JsonDecodeError::UnsupportedNumber(t))
                    &&& t@ == text@
                },
            },
            (JsonRead::BeginArray, JsonEvent::Began) => {
                &&& n.stack().len() == fs.len() + 1
                &&& n.stack().drop_last() == fs
                &&& n.stack().last() matches Frame::List(ws) && ws@.len() == 0
                &&& n.expected() == Some(JsonRead::HasNextItem)
                &&& step == JsonStep::Read(JsonRead::HasNextItem)
            },
            (JsonRead::BeginObject, JsonEvent::Began) => {
                &&& n.stack().len() == fs.len() + 1
                &&& n.stack().drop_last() == fs
                &&& n.stack().last() matches Frame::Object(gs, None) && gs@.len() == 0
                &&& n.expected() == Some(JsonRead::HasNextMember)
                &&& step == JsonStep::Read(JsonRead::HasNextMember)
            },
            (JsonRead::HasNextItem, JsonEvent::HasNext(more)) => asks(
                n,
                fs,
                if more {
                    JsonRead::Peek
                } else {
                    JsonRead::EndArray
                },
                step,
            ),
            (JsonRead::HasNextMember, JsonEvent::HasNext(more)) => asks(
                n,
                fs,
                if more {
                    JsonRead::ReadName
                } else {
                    JsonRead::EndObject
                },
                step,
            ),
            (JsonRead::ReadName, JsonEvent::Name(k)) => if fs.len() == 0 {
                rejects(n, step)
            } else {
                match fs.last() {
                Frame::Object(gs, _) => {
                    &&& n.stack().len() == fs.len()
                    &&& n.stack().drop_last() == fs.drop_last()
                    &&& n.stack().last() matches Frame::Object(hs, Some(k2)) && hs@ == gs@ && k2@
                        == k@
                    &&& n.expected() == Some(JsonRead::Peek)
                    &&& step == JsonStep::Read(JsonRead::Peek)
                },
                _ => rejects(n, step),
            }
            },
            (JsonRead::EndArray, JsonEvent::Ended) => if fs.len() == 0 {
                rejects(n, step)
            } else {
                match fs.last() {
                Frame::List(vs) => completed(
                    fs.drop_last(),
                    Value { kind: Some(Kind::ListValue(ListValue { values: vs })) },
                    n,
                    step,
                ),
                _ => rejects(n, step),
            }
            },
            (JsonRead::EndObject, JsonEvent::Ended) => if fs.len() == 0 {
                rejects(n, step)
            } else {
                match fs.last() {
                Frame::Object(gs, _) => completed(
                    fs.drop_last(),
                    Value { kind: Some(Kind::StructValue(Struct { fields: gs })) },
                    n,
                    step,
                ),
                _ => rejects(n, step),
            }
            },
            (r, e) => match scalar_of(r, e) {
                Some(v) => completed(fs, v, n, step),
                None => rejects(n, step),
            },
        },
    }
}

impl JsonDecoder {
    /// The open containers, outermost first.
    pub closed spec fn stack(&self) -> Seq<Frame> {
        self.frames@
    }

    /// The call whose result the decoder waits for; `None` once it ended.
    pub closed spec fn expected(&self) -> Option<JsonRead> {
        self.awaiting
    }

    /// The containers being filled hold only well-formed values, and the
    /// structures among them keep their fields ordered by name.
    pub open spec fn wf(&self) -> bool {
        frames_wf(self.stack())
    }

    /// A decoder that has read nothing: it asks to look at the first value.
    pub fn new() -> (r: (JsonDecoder, JsonRead))
        ensures
            r.0.wf(),
            r.0.stack().len() == 0,
            r.0.expected() == Some(JsonRead::Peek),
            r.1 == JsonRead::Peek,
    {
        (JsonDecoder { frames: Vec::new(), awaiting: Some(JsonRead::Peek) }, JsonRead::Peek)
    }

    /// The call the decoder waits for, if it has not ended.
    pub fn awaiting(&self) -> (r: Option<JsonRead>)
        ensures
            r == self.expected(),
    {
        self.awaiting
    }

    fn complete(&mut self, v: Value) -> (step: JsonStep)
        requires
            old(self).wf(),
            well_formed_value(v),
        ensures
            final(self).wf(),
            completed(old(self).stack(), v, *final(self), step),
            step matches JsonStep::Done(w) ==> well_formed_value(w),
    {
        let ghost v0 = v;
        match self.frames.pop() {
            None => {
                self.awaiting = None;
                JsonStep::Done(v)
            },
            Some(Frame::List(mut vs)) => {
                proof {
                    let last = old(self).frames@.len() - 1;
                    assert(old(self).frames@[last] == Frame::List(vs));
                    assert(frame_ok(old(self).frames@[last]));
                }
                vs.push(v);
                self.frames.push(Frame::List(vs));
                self.awaiting = Some(JsonRead::HasNextItem);
                proof {
                    assert(self.frames@.drop_last() =~= old(self).frames@.drop_last());
                    assert(frames_wf(self.frames@)) by {
                        assert forall|i: int| 0 <= i < self.frames@.len() implies frame_ok(#[trigger] self.frames@[i]) by {
                            if i < self.frames@.len() - 1 {
                                assert(self.frames@[i] == old(self).frames@[i]);
                            }
                        }
                    }
                }
                JsonStep::Read(JsonRead::HasNextItem)
            },
            Some(Frame::Object(mut fs, Some(k))) => {
                proof {
                    let last = old(self).frames@.len() - 1;
                    assert(old(self).frames@[last] == Frame::Object(fs, Some(k)));
                    assert(frame_ok(old(self).frames@[last]));
                }
                let ghost fs0 = fs@;
                let ghost k0 = k@;
                let ghost v1 = v;
                put_field(&mut fs, k, v);
                proof {
                    lemma_field_put_well_formed(fs0, k0, v1, fs@);
                }
                self.frames.push(Frame::Object(fs, None));
                self.awaiting = Some(JsonRead::HasNextMember);
                proof {
                    assert(self.frames@.drop_last() =~= old(self).frames@.drop_last());
                    assert(frames_wf(self.frames@)) by {
                        assert forall|i: int| 0 <= i < self.frames@.len() implies frame_ok(#[trigger] self.frames@[i]) by {
                            if i < self.frames@.len() - 1 {
                                assert(self.frames@[i] == old(self).frames@[i]);
                            }
                        }
                    }
                }
                JsonStep::Read(JsonRead::HasNextMember)
            },
            Some(Frame::Object(fs, None)) => {
                self.frames.push(Frame::Object(fs, None));
                self.awaiting = None;
                proof {
                    assert(self.frames@ =~= old(self).frames@);
                }
                JsonStep::Failed(JsonDecodeError::UnexpectedEvent)
            },
        }
    }

    fn ask(&mut self, r: JsonRead) -> (step: JsonStep)
        ensures
            final(self).stack() == old(self).stack(),
            asks(*final(self), old(self).stack(), r, step),
    {
        self.awaiting = Some(r);
        JsonStep::Read(r)
    }

    fn reject(&mut self) -> (step: JsonStep)
        ensures
            final(self).stack() == old(self).stack(),
            rejects(*final(self), step),
    {
        self.awaiting = None;
        JsonStep::Failed(JsonDecodeError::UnexpectedEvent)
    }

    /// Takes what the call asked for gave, and says what to do next.
    pub fn on_event(&mut self, e: JsonEvent) -> (step: JsonStep)
        requires
            old(self).wf(),
        ensures
            final(self).wf(),
            decode_step(*old(self), e, *final(self), step),
            step matches JsonStep::Done(v) ==> well_formed_value(v),
    {
        let ghost e0 = e;
        let r = match self.awaiting {
            None => {
                return self.reject();
            },
            Some(r) => r,
        };
        match (r, e) {
            (JsonRead::Peek, JsonEvent::Peeked(t)) => {
                let next = match t {
                    JsonType::Null => JsonRead::ReadNull,
                    JsonType::Boolean => JsonRead::ReadBool,
                    JsonType::Number => JsonRead::ReadNumber,
                    JsonType::String => JsonRead::ReadString,
                    JsonType::Array => JsonRead::BeginArray,
                    JsonType::Object => JsonRead::BeginObject,
                };
                self.ask(next)
            },
            (JsonRead::ReadNull, JsonEvent::Null) => {
                self.complete(Value { kind: Some(Kind::NullValue(0)) })
            },
            (JsonRead::ReadBool, JsonEvent::Bool(b)) => {
                self.complete(Value { kind: Some(Kind::BoolValue(b)) })
            },
            (JsonRead::ReadString, JsonEvent::Str(s)) => {
                self.complete(Value { kind: Some(Kind::StringValue(s)) })
            },
            (JsonRead::ReadNumber, JsonEvent::Number(text, parsed)) => {
                let bits = if str_eq(text.as_str(), "NaN") {
                    Some(NAN_BITS)
                } else if str_eq(text.as_str(), "-Infinity") {
                    Some(NEG_INFINITY_BITS)
                } else if str_eq(text.as_str(), "Infinity") {
                    Some(INFINITY_BITS)
                } else {
                    parsed
                };
                match bits {
                    Some(b) => self.complete(Value { kind: Some(Kind::NumberValue(b)) }),
                    None => {
                        self.awaiting = None;
                        JsonStep::Failed(JsonDecodeError::UnsupportedNumber(text))
                    },
                }
            },
            (JsonRead::BeginArray, JsonEvent::Began) => {
                self.frames.push(Frame::List(Vec::new()));
                proof {
                    assert(self.frames@.drop_last() =~= old(self).frames@);
                    assert forall|i: int| 0 <= i < self.frames@.len() implies frame_ok(#[trigger] self.frames@[i]) by {
                        if i < self.frames@.len() - 1 {
                            assert(self.frames@[i] == old(self).frames@[i]);
                        }
                    }
                }
                self.ask(JsonRead::HasNextItem)
            },
            (JsonRead::BeginObject, JsonEvent::Began) => {
                self.frames.push(Frame::Object(Vec::new(), None));
                proof {
                    assert(self.frames@.drop_last() =~= old(self).frames@);
                    assert forall|i: int| 0 <= i < self.frames@.len() implies frame_ok(#[trigger] self.frames@[i]) by {
                        if i < self.frames@.len() - 1 {
                            assert(self.frames@[i] == old(self).frames@[i]);
                        }
                    }
                }
                self.ask(JsonRead::HasNextMember)
            },
            (JsonRead::HasNextItem, JsonEvent::HasNext(more)) => {
                if more {
                    self.ask(JsonRead::Peek)
                } else {
                    self.ask(JsonRead::EndArray)
                }
            },
            (JsonRead::HasNextMember, JsonEvent::HasNext(more)) => {
                if more {
                    self.ask(JsonRead::ReadName)
                } else {
                    self.ask(JsonRead::EndObject)
                }
            },
            (JsonRead::ReadName, JsonEvent::Name(k)) => {
                match self.frames.pop() {
                    Some(Frame::Object(fs, _)) => {
                        self.frames.push(Frame::Object(fs, Some(k)));
                        proof {
                            assert(self.frames@.drop_last() =~= old(self).frames@.drop_last());
                            assert forall|i: int| 0 <= i < self.frames@.len() implies frame_ok(#[trigger] self.frames@[i]) by {
                                if i < self.frames@.len() - 1 {
                                    assert(self.frames@[i] == old(self).frames@[i]);
                                } else {
                                    assert(old(self).frames@[i] matches Frame::Object(gs, _) && gs == fs);
                                }
                            }
                        }
                        self.ask(JsonRead::Peek)
                    },
                    Some(f) => {
                        self.frames.push(f);
                        proof {
                            assert(self.frames@ =~= old(self).frames@);
                        }
                        self.reject()
                    },
                    None => self.reject(),
                }
            },
            (JsonRead::EndArray, JsonEvent::Ended) => {
                match self.frames.pop() {
                    Some(Frame::List(vs)) => {
                        proof {
                            assert(frames_wf(self.frames@)) by {
                                assert forall|i: int| 0 <= i < self.frames@.len() implies frame_ok(#[trigger] self.frames@[i]) by {
                                    assert(self.frames@[i] == old(self).frames@[i]);
                                }
                            }
                        }
                        self.complete(Value { kind: Some(Kind::ListValue(ListValue { values: vs })) })
                    },
                    Some(f) => {
                        self.frames.push(f);
                        proof {
                            assert(self.frames@ =~= old(self).frames@);
                        }
                        self.reject()
                    },
                    None => self.reject(),
                }
            },
            (JsonRead::EndObject, JsonEvent::Ended) => {
                match self.frames.pop() {
                    Some(Frame::Object(fs, _)) => {
                        proof {
                            assert(frames_wf(self.frames@)) by {
                                assert forall|i: int| 0 <= i < self.frames@.len() implies frame_ok(#[trigger] self.frames@[i]) by {
                                    assert(self.frames@[i] == old(self).frames@[i]);
                                }
                            }
                        }
                        self.complete(Value { kind: Some(Kind::StructValue(Struct::from_sorted(fs))) })
                    },
                    Some(f) => {
                        self.frames.push(f);
                        proof {
                            assert(self.frames@ =~= old(self).frames@);
                        }
                        self.reject()
                    },
                    None => self.reject(),
                }
            },
            _ => self.reject(),
        }
    }
}

/// Whether the fields are ordered by name, each name once.
pub fn fields_sorted(fs: &Vec<(String, Value)>) -> (r: bool)
    ensures
        r == sorted_fields(fs@),
{
    let mut i: usize = 1;
    if fs.len() == 0 {
        return true;
    }
    while i < fs.len()
        invariant
            1 <= i <= fs@.len(),
            sorted_fields(fs@.take(i as int)),
        decreases fs@.len() - i,
    {
        if !str_less(fs[i - 1].0.as_str(), fs[i].0.as_str()) {
            assert(!key_less(fs@[i - 1].0@, fs@[i as int].0@));
            return false;
        }
        proof {
            let t = fs@.take(i + 1);
            assert forall|a: int, b: int| 0 <= a < b < t.len() implies key_less(
                #[trigger] t[a].0@,
                #[trigger] t[b].0@,
            ) by {
                if b < i {
                    assert(fs@.take(i as int)[a] == t[a]);
                    assert(fs@.take(i as int)[b] == t[b]);
                } else if a < i - 1 {
                    assert(fs@.take(i as int)[a] == t[a]);
                    assert(fs@.take(i as int)[i - 1] == t[i - 1]);
                    assert(key_less(t[a].0@, t[i - 1].0@));
                    lemma_key_less_transitive(t[a].0@, t[i - 1].0@, t[b].0@);
                }
            }
        }
        i = i + 1;
    }
    assert(fs@.take(fs@.len() as int) =~= fs@);
    true
}

/// Whether the value is well formed: every value in it has a kind, and
/// every structure in it has its fields ordered by name, each name once.
pub fn is_well_formed(v: &Value) -> (r: bool)
    ensures
        r == well_formed_value(*v),
    decreases *v,
{
    match &v.kind {
        None => false,
        Some(Kind::ListValue(lv)) => {
            let mut i: usize = 0;
            while i < lv.values.len()
                invariant
                    i <= lv.values@.len(),
                    v.kind == Some(Kind::ListValue(*lv)),
                    forall|k: int| 0 <= k < i ==> well_formed_value(#[trigger] lv.values@[k]),
                decreases lv.values@.len() - i,
            {
                proof {
                    let k = v.kind->Some_0;
                    assert(decreases_to!(*v => v.kind));
                    assert(decreases_to!(v.kind => k));
                    assert(decreases_to!(k => k->ListValue_0));
                    assert(k->ListValue_0 == *lv);
                    assert(decreases_to!(*lv => lv.values));
                    assert(decreases_to!(lv.values => lv.values@));
                    assert(decreases_to!(lv.values@ => lv.values@[i as int]));
                }
                if !is_well_formed(&lv.values[i]) {
                    return false;
                }
                i = i + 1;
            }
            true
        },
        Some(Kind::StructValue(st)) => {
            if !fields_sorted(&st.fields) {
                return false;
            }
            let mut i: usize = 0;
            while i < st.fields.len()
                invariant
                    i <= st.fields@.len(),
                    v.kind == Some(Kind::StructValue(*st)),
                    sorted_fields(st.fields@),
                    forall|k: int| 0 <= k < i ==> well_formed_value(#[trigger] st.fields@[k].1),
                decreases st.fields@.len() - i,
            {
                proof {
                    let k = v.kind->Some_0;
                    let f = st.fields@[i as int];
                    assert(decreases_to!(*v => v.kind));
                    assert(decreases_to!(v.kind => k));
                    assert(decreases_to!(k => k->StructValue_0));
                    assert(k->StructValue_0 == *st);
                    assert(decreases_to!(*st => st.fields));
                    assert(decreases_to!(st.fields => st.fields@));
                    assert(decreases_to!(st.fields@ => f));
                    assert(decreases_to!(f => f.1));
                }
                if !is_well_formed(&st.fields[i].1) {
                    return false;
                }
                i = i + 1;
            }
            true
        },
        _ => true,
    }
}

} // verus!
