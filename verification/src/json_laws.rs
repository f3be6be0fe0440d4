use crate::fields::{
    field_put, key_less, lemma_key_less_irreflexive, lemma_key_less_transitive, sorted_fields,
};
use crate::json_decode::{
    completed, decode_step, frames_wf, number_value, well_formed_value, Frame, JsonDecoder,
    JsonEvent, JsonRead, JsonStep, JsonType,
};
use crate::value::{Kind, ListValue, Struct, Value};
use vstd::prelude::*;

verus! {

/// The abstract value of a message value: what is left of it once lists and
/// structures are taken by their contents.
pub enum ValueView {
    Null,
    Number(u64),
    Str(Seq<char>),
    Bool(bool),
    List(Seq<ValueView>),
    Struct(Seq<(Seq<char>, ValueView)>),
    Missing,
}

/// The abstract value of a value.
pub open(crate) spec fn value_view(v: Value) -> ValueView
    decreases v, 1int,
{
    match v.kind {
        Some(Kind::NullValue(_)) => ValueView::Null,
        Some(Kind::NumberValue(n)) => ValueView::Number(n),
        Some(Kind::StringValue(s)) => ValueView::Str(s@),
        Some(Kind::BoolValue(b)) => ValueView::Bool(b),
        Some(Kind::ListValue(lv)) => ValueView::List(items_view(lv.values@)),
        Some(Kind::StructValue(st)) => ValueView::Struct(fields_view(st.fields@)),
        None => ValueView::Missing,
    }
}

/// The abstract values of the items of a list.
pub open spec fn items_view(vs: Seq<Value>) -> Seq<ValueView>
    decreases vs, 0int,
{
    if vs.len() == 0 {
        seq![]
    } else {
        items_view(vs.drop_last()).push(value_view(vs.last()))
    }
}

/// The abstract values of the fields of a structure.
pub open spec fn fields_view(fs: Seq<(String, Value)>) -> Seq<(Seq<char>, ValueView)>
    decreases fs, 0int,
{
    if fs.len() == 0 {
        seq![]
    } else {
        fields_view(fs.drop_last()).push((fs.last().0@, value_view(fs.last().1)))
    }
}

/// What a reader reports, as the decoder takes it: a number by the value
/// it stands for.
pub enum JsonEventView {
    Peeked(JsonType),
    Null,
    Bool(bool),
    Number(Option<u64>),
    Str(Seq<char>),
    Began,
    HasNext(bool),
    Name(Seq<char>),
    Ended,
}

/// The abstract value of a reader event.
pub open spec fn event_view(e: JsonEvent) -> JsonEventView {
    match e {
        JsonEvent::Peeked(t) => JsonEventView::Peeked(t),
        JsonEvent::Null => JsonEventView::Null,
        JsonEvent::Bool(b) => JsonEventView::Bool(b),
        JsonEvent::Number(text, parsed) => JsonEventView::Number(number_value(text@, parsed)),
        JsonEvent::Str(s) => JsonEventView::Str(s@),
        JsonEvent::Began => JsonEventView::Began,
        JsonEvent::HasNext(b) => JsonEventView::HasNext(b),
        JsonEvent::Name(k) => JsonEventView::Name(k@),
        JsonEvent::Ended => JsonEventView::Ended,
    }
}

/// The abstract values of reader events.
pub open spec fn events_view(es: Seq<JsonEvent>) -> Seq<JsonEventView> {
    es.map_values(|e: JsonEvent| event_view(e))
}

/// What a reader reports, call by call, as it reads a value: its type, then
/// its contents; the items of an array each after a `true` from
/// `has_next`, the members of an object each after a `true` and its name,
/// and a `false` before the end.
pub open(crate) spec fn value_events(v: Value) -> Seq<JsonEventView>
    decreases v, 1int,
{
    match v.kind {
        Some(Kind::NullValue(_)) => seq![JsonEventView::Peeked(JsonType::Null), JsonEventView::Null],
        Some(Kind::BoolValue(b)) => seq![
            JsonEventView::Peeked(JsonType::Boolean),
            JsonEventView::Bool(b),
        ],
        Some(Kind::NumberValue(n)) => seq![
            JsonEventView::Peeked(JsonType::Number),
            JsonEventView::Number(Some(n)),
        ],
        Some(Kind::StringValue(s)) => seq![
            JsonEventView::Peeked(JsonType::String),
            JsonEventView::Str(s@),
        ],
        Some(Kind::ListValue(lv)) => seq![
            JsonEventView::Peeked(JsonType::Array),
            JsonEventView::Began,
        ] + items_events(lv.values@) + seq![JsonEventView::HasNext(false), JsonEventView::Ended],
        Some(Kind::StructValue(st)) => seq![
            JsonEventView::Peeked(JsonType::Object),
            JsonEventView::Began,
        ] + fields_events(st.fields@) + seq![JsonEventView::HasNext(false), JsonEventView::Ended],
        None => seq![],
    }
}

/// What a reader reports for the items of an array.
pub open spec fn items_events(vs: Seq<Value>) -> Seq<JsonEventView>
    decreases vs, 0int,
{
    if vs.len() == 0 {
        seq![]
    } else {
        items_events(vs.drop_last()) + seq![JsonEventView::HasNext(true)] + value_events(vs.last())
    }
}

/// What a reader reports for the members of an object.
pub open spec fn fields_events(fs: Seq<(String, Value)>) -> Seq<JsonEventView>
    decreases fs, 0int,
{
    if fs.len() == 0 {
        seq![]
    } else {
        fields_events(fs.drop_last()) + seq![
            JsonEventView::HasNext(true),
            JsonEventView::Name(fs.last().0@),
        ] + value_events(fs.last().1)
    }
}

/// Step `i` of a run: decoder `ds[i]`, given event `es[i]`, becomes
/// `ds[i + 1]` and takes step `ss[i]`.
pub open spec fn step_at(ds: Seq<JsonDecoder>, es: Seq<JsonEvent>, ss: Seq<JsonStep>, i: int) -> bool {
    decode_step(ds[i], es[i], ds[i + 1], ss[i])
}

/// A run of the decoder: the decoders it goes through, the events it is
/// given and the steps it takes, each decoder well formed.
pub open spec fn runs(ds: Seq<JsonDecoder>, es: Seq<JsonEvent>, ss: Seq<JsonStep>) -> bool {
    &&& ds.len() == es.len() + 1
    &&& ss.len() == es.len()
    &&& forall|i: int| 0 <= i < es.len() ==> #[trigger] step_at(ds, es, ss, i)
    &&& forall|i: int| 0 <= i < ds.len() ==> (#[trigger] ds[i]).wf()
}

/// A part of a run is a run.
proof fn lemma_runs_slice(
    ds: Seq<JsonDecoder>,
    es: Seq<JsonEvent>,
    ss: Seq<JsonStep>,
    a: int,
    b: int,
)
    requires
        runs(ds, es, ss),
        0 <= a <= b <= es.len(),
    ensures
        runs(ds.subrange(a, b + 1), es.subrange(a, b), ss.subrange(a, b)),
{
    let ds2 = ds.subrange(a, b + 1);
    let es2 = es.subrange(a, b);
    let ss2 = ss.subrange(a, b);
    assert forall|i: int| 0 <= i < es2.len() implies #[trigger] step_at(ds2, es2, ss2, i) by {
        assert(step_at(ds, es, ss, a + i));
        assert(ds2[i] == ds[a + i]);
        assert(ds2[i + 1] == ds[a + i + 1]);
    }
    assert forall|i: int| 0 <= i < ds2.len() implies (#[trigger] ds2[i]).wf() by {
        assert(ds2[i] == ds[a + i]);
    }
}

/// The events of a part of a run are that part of the run's events.
proof fn lemma_events_slice(es: Seq<JsonEvent>, a: int, b: int)
    requires
        0 <= a <= b <= es.len(),
    ensures
        events_view(es.subrange(a, b)) == events_view(es).subrange(a, b),
{
    assert(events_view(es.subrange(a, b)) =~= events_view(es).subrange(a, b));
}

/// A field's name and value, abstractly.
proof fn lemma_fields_view_index(fs: Seq<(String, Value)>)
    ensures
        fields_view(fs).len() == fs.len(),
        forall|j: int|
            0 <= j < fs.len() ==> #[trigger] fields_view(fs)[j] == (fs[j].0@, value_view(fs[j].1)),
    decreases fs.len(),
{
    if fs.len() > 0 {
        lemma_fields_view_index(fs.drop_last());
        assert forall|j: int| 0 <= j < fs.len() implies #[trigger] fields_view(fs)[j] == (
            fs[j].0@,
            value_view(fs[j].1),
        ) by {
            if j < fs.len() - 1 {
                assert(fs.drop_last()[j] == fs[j]);
            }
        }
    }
}

/// Setting a field whose name comes after every name there puts it last.
proof fn lemma_put_after_all(fs: Seq<(String, Value)>, k: Seq<char>, v: Value, gs: Seq<(String, Value)>)
    requires
        field_put(fs, k, v, gs),
        sorted_fields(gs),
        forall|j: int| 0 <= j < fs.len() ==> key_less(#[trigger] fs[j].0@, k),
    ensures
        gs.len() == fs.len() + 1,
        gs.drop_last() == fs,
        gs.last().0@ == k,
        gs.last().1 == v,
{
    if exists|i: int|
        0 <= i < fs.len() && fs[i].0@ == k && gs.len() == fs.len() && gs[i].0@ == k && gs[i].1
            == v && forall|j: int| 0 <= j < fs.len() && j != i ==> gs[j] == fs[j] {
        let i = choose|i: int|
            0 <= i < fs.len() && fs[i].0@ == k && gs.len() == fs.len() && gs[i].0@ == k && gs[i].1
                == v && forall|j: int| 0 <= j < fs.len() && j != i ==> gs[j] == fs[j];
        assert(key_less(fs[i].0@, k));
        lemma_key_less_irreflexive(k);
    } else {
        let p = choose|p: int|
            0 <= p <= fs.len() && gs.len() == fs.len() + 1 && gs[p].0@ == k && gs[p].1 == v && (
            forall|j: int| 0 <= j < p ==> gs[j] == fs[j]) && (forall|j: int|
                p < j < gs.len() ==> gs[j] == fs[j - 1]);
        if p < fs.len() {
            assert(gs[p + 1] == fs[p]);
            assert(key_less(gs[p].0@, gs[p + 1].0@));
            assert(key_less(fs[p].0@, k));
            lemma_key_less_transitive(k, fs[p].0@, k);
            lemma_key_less_irreflexive(k);
        }
        assert(gs.drop_last() =~= fs);
    }
}

/// Decoding what a reader reports for a well-formed value, from a decoder
/// that looks at a value next, gives a value with the same abstract value,
/// completed as a value in the open container.
proof fn lemma_value_run(v: Value, ds: Seq<JsonDecoder>, es: Seq<JsonEvent>, ss: Seq<JsonStep>) -> (w: Value)
    requires
        well_formed_value(v),
        runs(ds, es, ss),
        ds[0].expected() == Some(JsonRead::Peek),
        events_view(es) == value_events(v),
        ds[0].stack().len() > 0 ==> !(ds[0].stack().last() matches Frame::Object(_, None)),
    ensures
        es.len() >= 2,
        value_view(w) == value_view(v),
        completed(ds[0].stack(), w, ds[es.len() as int], ss[es.len() - 1]),
    decreases v, 1int,
{
    let fs = ds[0].stack();
    let n = es.len() as int;
    assert(es.len() == value_events(v).len());
    assert(event_view(es[0]) == events_view(es)[0]);
    assert(step_at(ds, es, ss, 0));
    match v.kind {
        Some(Kind::NullValue(_)) => {
            assert(event_view(es[1]) == events_view(es)[1]);
            assert(step_at(ds, es, ss, 1));
            Value { kind: Some(Kind::NullValue(0)) }
        },
        Some(Kind::BoolValue(b)) => {
            assert(event_view(es[1]) == events_view(es)[1]);
            assert(step_at(ds, es, ss, 1));
            Value { kind: Some(Kind::BoolValue(b)) }
        },
        Some(Kind::NumberValue(x)) => {
            assert(event_view(es[1]) == events_view(es)[1]);
            assert(step_at(ds, es, ss, 1));
            Value { kind: Some(Kind::NumberValue(x)) }
        },
        Some(Kind::StringValue(st)) => {
            assert(event_view(es[1]) == events_view(es)[1]);
            assert(step_at(ds, es, ss, 1));
            let s2 = es[1]->Str_0;
            Value { kind: Some(Kind::StringValue(s2)) }
        },
        Some(Kind::ListValue(lv)) => {
            let vals = lv.values@;
            let m = items_events(vals).len() as int;
            assert(event_view(es[1]) == events_view(es)[1]);
            assert(step_at(ds, es, ss, 1));
            let top = ds[2].stack().last();
            let ws0 = top->List_0;
            assert(ds[2].stack() =~= fs.push(Frame::List(ws0)));
            lemma_runs_slice(ds, es, ss, 2, 2 + m);
            lemma_events_slice(es, 2, 2 + m);
            assert(events_view(es).subrange(2, 2 + m) =~= items_events(vals));
            assert forall|i: int| 0 <= i < vals.len() implies well_formed_value(#[trigger] vals[i]) by {}
            assert(decreases_to!(v => vals)) by {
                let k = v.kind->Some_0;
                assert(decreases_to!(v => v.kind));
                assert(decreases_to!(v.kind => k));
                assert(decreases_to!(k => k->ListValue_0));
                assert(decreases_to!(lv => lv.values));
                assert(decreases_to!(lv.values => lv.values@));
            }
            let sub_ds = ds.subrange(2, 3 + m);
            let ws = lemma_items_run(vals, sub_ds, es.subrange(2, 2 + m), ss.subrange(2, 2 + m), fs, ws0);
            assert(sub_ds[m] == ds[2 + m]);
            assert(event_view(es[2 + m]) == events_view(es)[2 + m]);
            assert(step_at(ds, es, ss, 2 + m));
            assert(event_view(es[3 + m]) == events_view(es)[3 + m]);
            assert(step_at(ds, es, ss, 3 + m));
            assert(ds[3 + m].stack().drop_last() =~= fs);
            assert(items_view(ws0@) =~= Seq::<ValueView>::empty());
            assert(items_view(ws@) =~= items_view(vals));
            Value { kind: Some(Kind::ListValue(ListValue { values: ws })) }
        },
        Some(Kind::StructValue(st)) => {
            let fsv = st.fields@;
            let m = fields_events(fsv).len() as int;
            assert(event_view(es[1]) == events_view(es)[1]);
            assert(step_at(ds, es, ss, 1));
            let top = ds[2].stack().last();
            let gs0 = top->Object_0;
            assert(ds[2].stack() =~= fs.push(Frame::Object(gs0, None)));
            lemma_runs_slice(ds, es, ss, 2, 2 + m);
            lemma_events_slice(es, 2, 2 + m);
            assert(events_view(es).subrange(2, 2 + m) =~= fields_events(fsv));
            assert(decreases_to!(v => fsv)) by {
                let k = v.kind->Some_0;
                assert(decreases_to!(v => v.kind));
                assert(decreases_to!(v.kind => k));
                assert(decreases_to!(k => k->StructValue_0));
                assert(decreases_to!(st => st.fields));
                assert(decreases_to!(st.fields => st.fields@));
            }
            let sub_ds = ds.subrange(2, 3 + m);
            let gs = lemma_fields_run(fsv, sub_ds, es.subrange(2, 2 + m), ss.subrange(2, 2 + m), fs, gs0);
            assert(sub_ds[m] == ds[2 + m]);
            assert(event_view(es[2 + m]) == events_view(es)[2 + m]);
            assert(step_at(ds, es, ss, 2 + m));
            assert(event_view(es[3 + m]) == events_view(es)[3 + m]);
            assert(step_at(ds, es, ss, 3 + m));
            assert(ds[3 + m].stack().drop_last() =~= fs);
            assert(fields_view(gs0@) =~= Seq::<(Seq<char>, ValueView)>::empty());
            assert(fields_view(gs@) =~= fields_view(fsv));
            Value { kind: Some(Kind::StructValue(Struct { fields: gs })) }
        },
        None => {
            Value { kind: None }
        },
    }
}

/// Decoding what a reader reports for the items of an array adds, to the
/// list being filled, items with the same abstract values.
proof fn lemma_items_run(
    vs: Seq<Value>,
    ds: Seq<JsonDecoder>,
    es: Seq<JsonEvent>,
    ss: Seq<JsonStep>,
    fs: Seq<Frame>,
    ws0: Vec<Value>,
) -> (ws: Vec<Value>)
    requires
        forall|i: int| 0 <= i < vs.len() ==> well_formed_value(#[trigger] vs[i]),
        runs(ds, es, ss),
        ds[0].stack() == fs.push(Frame::List(ws0)),
        ds[0].expected() == Some(JsonRead::HasNextItem),
        events_view(es) == items_events(vs),
    ensures
        ds[es.len() as int].stack() == fs.push(Frame::List(ws)),
        ds[es.len() as int].expected() == Some(JsonRead::HasNextItem),
        items_view(ws@) == items_view(ws0@) + items_view(vs),
    decreases vs, 0int,
{
    if vs.len() == 0 {
        assert(items_view(ws0@) + items_view(vs) =~= items_view(ws0@));
        ws0
    } else {
        let init = vs.drop_last();
        let last = vs.last();
        let k = items_events(init).len() as int;
        let le = value_events(last).len() as int;
        let n = es.len() as int;
        assert(events_view(es).len() == es.len());
        assert(items_events(vs) == items_events(init) + seq![JsonEventView::HasNext(true)]
            + value_events(last));
        assert(n == k + 1 + le);
        lemma_runs_slice(ds, es, ss, 0, k);
        lemma_events_slice(es, 0, k);
        assert(events_view(es).subrange(0, k) =~= items_events(init));
        assert forall|i: int| 0 <= i < init.len() implies well_formed_value(#[trigger] init[i]) by {
            assert(init[i] == vs[i]);
        }
        let sub_ds = ds.subrange(0, k + 1);
        let ws_mid = lemma_items_run(init, sub_ds, es.subrange(0, k), ss.subrange(0, k), fs, ws0);
        assert(sub_ds[k] == ds[k]);
        assert(event_view(es[k]) == events_view(es)[k]);
        assert(step_at(ds, es, ss, k));
        lemma_runs_slice(ds, es, ss, k + 1, n);
        lemma_events_slice(es, k + 1, n);
        assert(events_view(es).subrange(k + 1, n) =~= value_events(last));
        let sub2 = ds.subrange(k + 1, n + 1);
        assert(sub2[0] == ds[k + 1]);
        assert(ds[k + 1].stack().last() == Frame::List(ws_mid));
        assert(ds[k + 1].stack().drop_last() =~= fs);
        let w = lemma_value_run(last, sub2, es.subrange(k + 1, n), ss.subrange(k + 1, n));
        assert(sub2[le] == ds[n]);
        assert(ss.subrange(k + 1, n)[le - 1] == ss[n - 1]);
        assert(completed(ds[k + 1].stack(), w, ds[n], ss[n - 1]));
        assert(ds[n].stack().drop_last() == fs);
        let ws = ds[n].stack().last()->List_0;
        assert(ds[n].stack() =~= fs.push(Frame::List(ws)));
        assert(ws@.drop_last() =~= ws_mid@);
        assert(ws@.last() == w);
        assert(items_view(ws@) == items_view(ws_mid@).push(value_view(w)));
        assert(items_view(ws@) =~= items_view(ws0@) + items_view(vs));
        ws
    }
}

/// Decoding what a reader reports for the members of an object whose names
/// come in order adds, to the structure being filled, fields with those
/// names and the same abstract values, at its end.
proof fn lemma_fields_run(
    fv: Seq<(String, Value)>,
    ds: Seq<JsonDecoder>,
    es: Seq<JsonEvent>,
    ss: Seq<JsonStep>,
    fs: Seq<Frame>,
    gs0: Vec<(String, Value)>,
) -> (gs: Vec<(String, Value)>)
    requires
        sorted_fields(fv),
        forall|i: int| 0 <= i < fv.len() ==> well_formed_value(#[trigger] fv[i].1),
        runs(ds, es, ss),
        ds[0].stack() == fs.push(Frame::Object(gs0, None)),
        ds[0].expected() == Some(JsonRead::HasNextMember),
        events_view(es) == fields_events(fv),
        forall|j: int, i: int|
            0 <= j < gs0@.len() && 0 <= i < fv.len() ==> key_less(
                #[trigger] gs0@[j].0@,
                #[trigger] fv[i].0@,
            ),
    ensures
        ds[es.len() as int].stack() == fs.push(Frame::Object(gs, None)),
        ds[es.len() as int].expected() == Some(JsonRead::HasNextMember),
        fields_view(gs@) == fields_view(gs0@) + fields_view(fv),
    decreases fv, 0int,
{
    if fv.len() == 0 {
        assert(fields_view(gs0@) + fields_view(fv) =~= fields_view(gs0@));
        gs0
    } else {
        let init = fv.drop_last();
        let last = fv.last();
        let k = fields_events(init).len() as int;
        let le = value_events(last.1).len() as int;
        let n = es.len() as int;
        assert(events_view(es).len() == es.len());
        assert(fields_events(fv) == fields_events(init) + seq![
            JsonEventView::HasNext(true),
            JsonEventView::Name(last.0@),
        ] + value_events(last.1));
        assert(n == k + 2 + le);
        lemma_runs_slice(ds, es, ss, 0, k);
        lemma_events_slice(es, 0, k);
        assert(events_view(es).subrange(0, k) =~= fields_events(init));
        assert forall|i: int| 0 <= i < init.len() implies well_formed_value(#[trigger] init[i].1) by {
            assert(init[i] == fv[i]);
        }
        assert forall|j: int, i: int|
            0 <= j < gs0@.len() && 0 <= i < init.len() implies key_less(
                #[trigger] gs0@[j].0@,
                #[trigger] init[i].0@,
            ) by {
            assert(init[i] == fv[i]);
        }
        let sub_ds = ds.subrange(0, k + 1);
        let gs_mid = lemma_fields_run(init, sub_ds, es.subrange(0, k), ss.subrange(0, k), fs, gs0);
        assert(sub_ds[k] == ds[k]);
        assert(event_view(es[k]) == events_view(es)[k]);
        assert(step_at(ds, es, ss, k));
        assert(event_view(es[k + 1]) == events_view(es)[k + 1]);
        assert(step_at(ds, es, ss, k + 1));
        let hs = ds[k + 2].stack().last()->Object_0;
        let key = ds[k + 2].stack().last()->Object_1->Some_0;
        assert(hs@ == gs_mid@);
        assert(key@ == last.0@);
        lemma_runs_slice(ds, es, ss, k + 2, n);
        lemma_events_slice(es, k + 2, n);
        assert(events_view(es).subrange(k + 2, n) =~= value_events(last.1));
        let sub2 = ds.subrange(k + 2, n + 1);
        assert(sub2[0] == ds[k + 2]);
        assert(decreases_to!(fv => last.1)) by {
            assert(decreases_to!(fv => last));
            assert(decreases_to!(last => last.1));
        }
        assert(ds[k + 2].stack().drop_last() =~= fs);
        let w = lemma_value_run(last.1, sub2, es.subrange(k + 2, n), ss.subrange(k + 2, n));
        assert(sub2[le] == ds[n]);
        assert(ss.subrange(k + 2, n)[le - 1] == ss[n - 1]);
        assert(completed(ds[k + 2].stack(), w, ds[n], ss[n - 1]));
        assert(ds[n].stack().drop_last() == fs);
        let gs = ds[n].stack().last()->Object_0;
        assert(ds[n].stack() =~= fs.push(Frame::Object(gs, None)));
        // every name so far comes before the new one
        lemma_fields_view_index(gs_mid@);
        lemma_fields_view_index(gs0@);
        lemma_fields_view_index(init);
        assert forall|j: int| 0 <= j < hs@.len() implies key_less(#[trigger] hs@[j].0@, key@) by {
            let g0 = gs0@.len() as int;
            assert(fields_view(gs_mid@)[j] == (fields_view(gs0@) + fields_view(init))[j]);
            if j < g0 {
                assert(fields_view(gs0@)[j].0 == gs0@[j].0@);
                assert(key_less(gs0@[j].0@, fv[fv.len() - 1].0@));
            } else {
                assert(fields_view(init)[j - g0].0 == init[j - g0].0@);
                assert(init[j - g0] == fv[j - g0]);
                assert(key_less(fv[j - g0].0@, fv[fv.len() - 1].0@));
            }
        }
        assert(frames_wf(ds[n].stack()));
        assert(crate::json_decode::frame_ok(ds[n].stack()[ds[n].stack().len() - 1]));
        lemma_put_after_all(hs@, key@, w, gs@);
        assert(gs@.drop_last() =~= gs_mid@);
        assert(fields_view(gs@) == fields_view(gs_mid@).push((key@, value_view(w))));
        assert(fields_view(gs@) =~= fields_view(gs0@) + fields_view(fv));
        gs
    }
}

/// Decoding what a reader reports for a well-formed value gives that value
/// back: the decoder, fed those events one by one from its start, ends with
/// a value whose abstract value is the one read.
pub proof fn lemma_decode_roundtrip(
    v: Value,
    ds: Seq<JsonDecoder>,
    es: Seq<JsonEvent>,
    ss: Seq<JsonStep>,
)
    requires
        well_formed_value(v),
        runs(ds, es, ss),
        ds[0].stack().len() == 0,
        ds[0].expected() == Some(JsonRead::Peek),
        events_view(es) == value_events(v),
    ensures
        ss.len() >= 2,
        ss.last() matches JsonStep::Done(w) && value_view(w) == value_view(v),
{
    let w = lemma_value_run(v, ds, es, ss);
}

} // verus!
