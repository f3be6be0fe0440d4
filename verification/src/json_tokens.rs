use crate::json::{
    fields_writes, has_kinds, is_infinite_bits, is_nan_bits, items_writes, number_write,
    value_writes, JsonWriteView,
};
use crate::json_decode::{lemma_well_formed_has_kinds, well_formed_value, JsonDecoder, JsonEvent, JsonRead, JsonStep, JsonType};
use crate::json_laws::{
    events_view, fields_events, items_events, lemma_decode_roundtrip, runs, value_events,
    value_view, JsonEventView,
};
use crate::value::{Kind, Value};
use vstd::prelude::*;

verus! {

/// Every number in `v`, `v` included, is finite, so that it is written as a
/// number (not as the text `NaN`, `Infinity` or `-Infinity`).
pub open(crate) spec fn numbers_finite(v: Value) -> bool
    decreases v,
{
    match v.kind {
        Some(Kind::NumberValue(n)) => !is_nan_bits(n) && !is_infinite_bits(n),
        Some(Kind::ListValue(lv)) => forall|i: int|
            0 <= i < lv.values@.len() ==> numbers_finite(#[trigger] lv.values@[i]),
        Some(Kind::StructValue(st)) => forall|i: int|
            0 <= i < st.fields@.len() ==> numbers_finite(#[trigger] st.fields@[i].1),
        _ => true,
    }
}

/// What a reader reports before a value read inside the containers `open`
/// (innermost last, `true` for an array): a `true` from `has_next` where the
/// value is an item of an array, nothing otherwise.
pub open spec fn item_lead(open: Seq<bool>) -> Seq<JsonEventView> {
    if open.len() > 0 && open.last() {
        seq![JsonEventView::HasNext(true)]
    } else {
        seq![]
    }
}

/// What a reader reports, call by call, as it reads the token `t` of a JSON
/// document inside the containers `open` (innermost last, `true` for an
/// array): the events, and the containers open after the token. A value is
/// peeked at, then read; an array's item comes after a `true` from
/// `has_next`, an object's member name after one too; a container's end
/// comes after a `false`.
pub open spec fn token_events(t: JsonWriteView, open: Seq<bool>) -> (Seq<JsonEventView>, Seq<bool>) {
    let lead = item_lead(open);
    match t {
        JsonWriteView::Null => (lead + seq![JsonEventView::Peeked(JsonType::Null), JsonEventView::Null], open),
        JsonWriteView::Bool(b) => (
            lead + seq![JsonEventView::Peeked(JsonType::Boolean), JsonEventView::Bool(b)],
            open,
        ),
        JsonWriteView::Number(n) => (
            lead + seq![JsonEventView::Peeked(JsonType::Number), JsonEventView::Number(Some(n))],
            open,
        ),
        JsonWriteView::Str(s) => (
            lead + seq![JsonEventView::Peeked(JsonType::String), JsonEventView::Str(s)],
            open,
        ),
        JsonWriteView::Name(k) => (seq![JsonEventView::HasNext(true), JsonEventView::Name(k)], open),
        JsonWriteView::BeginArray => (
            lead + seq![JsonEventView::Peeked(JsonType::Array), JsonEventView::Began],
            open.push(true),
        ),
        JsonWriteView::BeginObject => (
            lead + seq![JsonEventView::Peeked(JsonType::Object), JsonEventView::Began],
            open.push(false),
        ),
        _ => (
            seq![JsonEventView::HasNext(false), JsonEventView::Ended],
            if open.len() > 0 {
                open.drop_last()
            } else {
                open
            },
        ),
    }
}

/// What a reader reports reading the document whose tokens are `ws`, one
/// after the other, starting inside the containers `open`: all the events,
/// and the containers open at the end.
pub open spec fn read_tokens(ws: Seq<JsonWriteView>, open: Seq<bool>) -> (Seq<JsonEventView>, Seq<bool>)
    decreases ws.len(),
{
    if ws.len() == 0 {
        (seq![], open)
    } else {
        let first = token_events(ws[0], open);
        let rest = read_tokens(ws.drop_first(), first.1);
        (first.0 + rest.0, rest.1)
    }
}

/// Reading the tokens written for a value, then more tokens, reports the
/// events of the value (after a `true` from `has_next` where it is an array
/// item), then those of the rest.
proof fn lemma_value_tokens(v: Value, rest: Seq<JsonWriteView>, open: Seq<bool>)
    requires
        has_kinds(v),
        numbers_finite(v),
    ensures
        read_tokens(value_writes(v) + rest, open) == (
            item_lead(open) + value_events(v) + read_tokens(rest, open).0,
            read_tokens(rest, open).1,
        ),
    decreases v, 1int,
{
    let ws = value_writes(v) + rest;
    let r = read_tokens(rest, open);
    match v.kind {
        Some(Kind::ListValue(lv)) => {
            let vals = lv.values@;
            let inner = open.push(true);
            assert(decreases_to!(v => vals)) by {
                let k = v.kind->Some_0;
                assert(decreases_to!(v => v.kind));
                assert(decreases_to!(v.kind => k));
                assert(decreases_to!(k => k->ListValue_0));
                assert(decreases_to!(lv => lv.values));
                assert(decreases_to!(lv.values => lv.values@));
            }
            let tail = seq![JsonWriteView::EndArray] + rest;
            assert(ws.drop_first() =~= items_writes(vals) + tail);
            lemma_items_tokens(vals, tail, inner);
            assert(tail.drop_first() =~= rest);
            assert(inner.drop_last() =~= open);
            assert(read_tokens(tail, inner) == (
                seq![JsonEventView::HasNext(false), JsonEventView::Ended] + r.0,
                r.1,
            ));
            assert(read_tokens(ws, open).0 =~= item_lead(open) + value_events(v) + r.0);
        },
        Some(Kind::StructValue(st)) => {
            let fs = st.fields@;
            let inner = open.push(false);
            assert(decreases_to!(v => fs)) by {
                let k = v.kind->Some_0;
                assert(decreases_to!(v => v.kind));
                assert(decreases_to!(v.kind => k));
                assert(decreases_to!(k => k->StructValue_0));
                assert(decreases_to!(st => st.fields));
                assert(decreases_to!(st.fields => st.fields@));
            }
            let tail = seq![JsonWriteView::EndObject] + rest;
            assert(ws.drop_first() =~= fields_writes(fs) + tail);
            lemma_fields_tokens(fs, tail, inner);
            assert(tail.drop_first() =~= rest);
            assert(inner.drop_last() =~= open);
            assert(read_tokens(tail, inner) == (
                seq![JsonEventView::HasNext(false), JsonEventView::Ended] + r.0,
                r.1,
            ));
            assert(read_tokens(ws, open).0 =~= item_lead(open) + value_events(v) + r.0);
        },
        Some(Kind::NumberValue(n)) => {
            assert(number_write(n) == JsonWriteView::Number(n));
            assert(ws.drop_first() =~= rest);
            assert(read_tokens(ws, open).0 =~= item_lead(open) + value_events(v) + r.0);
        },
        _ => {
            assert(ws.drop_first() =~= rest);
            assert(read_tokens(ws, open).0 =~= item_lead(open) + value_events(v) + r.0);
        },
    }
}

/// Reading the tokens written for the items of a list inside an array, then
/// more tokens, reports the events of the items, then those of the rest.
proof fn lemma_items_tokens(vs: Seq<Value>, rest: Seq<JsonWriteView>, open: Seq<bool>)
    requires
        open.len() > 0 && open.last(),
        forall|i: int| 0 <= i < vs.len() ==> has_kinds(#[trigger] vs[i]),
        forall|i: int| 0 <= i < vs.len() ==> numbers_finite(#[trigger] vs[i]),
    ensures
        read_tokens(items_writes(vs) + rest, open) == (
            items_events(vs) + read_tokens(rest, open).0,
            read_tokens(rest, open).1,
        ),
    decreases vs, 0int,
{
    let r = read_tokens(rest, open);
    if vs.len() == 0 {
        assert(items_writes(vs) + rest =~= rest);
        assert(items_events(vs) + r.0 =~= r.0);
    } else {
        let init = vs.drop_last();
        let last = vs.last();
        assert(decreases_to!(vs => last));
        assert(has_kinds(vs[vs.len() - 1]) && numbers_finite(vs[vs.len() - 1]));
        lemma_value_tokens(last, rest, open);
        let mid = value_writes(last) + rest;
        assert(items_writes(vs) + rest =~= items_writes(init) + mid);
        assert forall|i: int| 0 <= i < init.len() implies has_kinds(#[trigger] init[i]) && numbers_finite(init[i]) by {
            assert(init[i] == vs[i]);
        }
        lemma_items_tokens(init, mid, open);
        assert(items_events(vs) + r.0 =~= items_events(init) + (item_lead(open) + value_events(last)
            + r.0));
    }
}

/// Reading the tokens written for the fields of a structure inside an
/// object, then more tokens, reports the events of the members, then those
/// of the rest.
proof fn lemma_fields_tokens(fs: Seq<(String, Value)>, rest: Seq<JsonWriteView>, open: Seq<bool>)
    requires
        open.len() > 0 && !open.last(),
        forall|i: int| 0 <= i < fs.len() ==> has_kinds(#[trigger] fs[i].1),
        forall|i: int| 0 <= i < fs.len() ==> numbers_finite(#[trigger] fs[i].1),
    ensures
        read_tokens(fields_writes(fs) + rest, open) == (
            fields_events(fs) + read_tokens(rest, open).0,
            read_tokens(rest, open).1,
        ),
    decreases fs, 0int,
{
    let r = read_tokens(rest, open);
    if fs.len() == 0 {
        assert(fields_writes(fs) + rest =~= rest);
        assert(fields_events(fs) + r.0 =~= r.0);
    } else {
        let init = fs.drop_last();
        let last = fs.last();
        assert(decreases_to!(fs => last));
        assert(decreases_to!(last => last.1));
        assert(has_kinds(fs[fs.len() - 1].1) && numbers_finite(fs[fs.len() - 1].1));
        lemma_value_tokens(last.1, rest, open);
        let named = seq![JsonWriteView::Name(last.0@)] + value_writes(last.1) + rest;
        assert(named.drop_first() =~= value_writes(last.1) + rest);
        assert(item_lead(open) =~= Seq::<JsonEventView>::empty());
        assert(fields_writes(fs) + rest =~= fields_writes(init) + named);
        assert forall|i: int| 0 <= i < init.len() implies has_kinds(#[trigger] init[i].1) && numbers_finite(init[i].1) by {
            assert(init[i] == fs[i]);
        }
        lemma_fields_tokens(init, named, open);
        assert(fields_events(fs) + r.0 =~= fields_events(init) + (seq![
            JsonEventView::HasNext(true),
            JsonEventView::Name(last.0@),
        ] + value_events(last.1) + r.0));
    }
}

/// A reader reading the JSON document written for a value reports exactly
/// the events of that value: the writes of a value and what a reader makes
/// of them agree, so a boolean, a number, a string, a name, each container
/// and each item written is read back as itself, in place.
pub proof fn lemma_written_document_reads_back(v: Value)
    requires
        has_kinds(v),
        numbers_finite(v),
    ensures
        read_tokens(value_writes(v), seq![]) == (value_events(v), Seq::<bool>::empty()),
{
    lemma_value_tokens(v, seq![], seq![]);
    assert(value_writes(v) + Seq::<JsonWriteView>::empty() =~= value_writes(v));
    assert(item_lead(seq![]) =~= Seq::<JsonEventView>::empty());
    assert(Seq::<JsonEventView>::empty() + value_events(v) + Seq::<JsonEventView>::empty() =~= value_events(v));
}

/// Encoding then decoding gives the value back: a fresh decoder given what
/// a reader reports for the document written for a well-formed value with
/// finite numbers finishes with a value of the same abstract value.
pub proof fn lemma_encode_then_decode_json(
    v: Value,
    ds: Seq<JsonDecoder>,
    es: Seq<JsonEvent>,
    ss: Seq<JsonStep>,
)
    requires
        well_formed_value(v),
        numbers_finite(v),
        runs(ds, es, ss),
        ds[0].stack().len() == 0,
        ds[0].expected() == Some(JsonRead::Peek),
        events_view(es) == read_tokens(value_writes(v), seq![]).0,
    ensures
        ss.len() >= 2,
        ss.last() matches JsonStep::Done(w) && value_view(w) == value_view(v),
{
    lemma_well_formed_has_kinds(v);
    lemma_written_document_reads_back(v);
    lemma_decode_roundtrip(v, ds, es, ss);
}

} // verus!
