use crate::json_decode::{lemma_well_formed_has_kinds, well_formed_value};
use crate::value::{Kind, ListValue, Struct, Value};
use vstd::prelude::*;

verus! {

/// One call on a JSON stream writer.
#[derive(Debug)]
pub enum JsonWrite {
    Null,
    Bool(bool),
    /// A finite number, as the bit pattern of a 64-bit float.
    Number(u64),
    Str(String),
    Name(String),
    BeginArray,
    EndArray,
    BeginObject,
    EndObject,
}

/// The abstract value of a [`JsonWrite`].
pub enum JsonWriteView {
    Null,
    Bool(bool),
    Number(u64),
    Str(Seq<char>),
    Name(Seq<char>),
    BeginArray,
    EndArray,
    BeginObject,
    EndObject,
}

impl View for JsonWrite {
    type V = JsonWriteView;

    open spec fn view(&self) -> JsonWriteView {
        match self {
            JsonWrite::Null => JsonWriteView::Null,
            JsonWrite::Bool(b) => JsonWriteView::Bool(*b),
            JsonWrite::Number(n) => JsonWriteView::Number(*n),
            JsonWrite::Str(s) => JsonWriteView::Str(s@),
            JsonWrite::Name(s) => JsonWriteView::Name(s@),
            JsonWrite::BeginArray => JsonWriteView::BeginArray,
            JsonWrite::EndArray => JsonWriteView::EndArray,
            JsonWrite::BeginObject => JsonWriteView::BeginObject,
            JsonWrite::EndObject => JsonWriteView::EndObject,
        }
    }
}

/// The abstract values of a sequence of writes.
pub open spec fn writes_view(ws: Seq<JsonWrite>) -> Seq<JsonWriteView> {
    ws.map_values(|w: JsonWrite| w@)
}

/// The bits that mark the exponent of a 64-bit float.
pub const EXPONENT_MASK: u64 = 0x7ff0_0000_0000_0000;

/// The bits that hold the fraction of a 64-bit float.
pub const FRACTION_MASK: u64 = 0x000f_ffff_ffff_ffff;

/// The sign bit of a 64-bit float.
pub const SIGN_MASK: u64 = 0x8000_0000_0000_0000;

/// The float with these bits is not a number.
pub open spec fn is_nan_bits(b: u64) -> bool {
    b & EXPONENT_MASK == EXPONENT_MASK && b & FRACTION_MASK != 0
}

/// The float with these bits is infinite.
pub open spec fn is_infinite_bits(b: u64) -> bool {
    b & EXPONENT_MASK == EXPONENT_MASK && b & FRACTION_MASK == 0
}

/// The float with these bits has its sign bit set.
pub open spec fn is_negative_bits(b: u64) -> bool {
    b & SIGN_MASK != 0
}

/// How a number is written: a value that is not a number, or an infinite
/// one, as the string of its name; any other as a number.
pub open spec fn number_write(b: u64) -> JsonWriteView {
    if is_nan_bits(b) {
        JsonWriteView::Str("NaN"@)
    } else if is_infinite_bits(b) && is_negative_bits(b) {
        JsonWriteView::Str("-Infinity"@)
    } else if is_infinite_bits(b) {
        JsonWriteView::Str("Infinity"@)
    } else {
        JsonWriteView::Number(b)
    }
}

/// Every value in `v`, `v` included, has a kind.
pub open(crate) spec fn has_kinds(v: Value) -> bool
    decreases v,
{
    match v.kind {
        None => false,
        Some(Kind::ListValue(lv)) => forall|i: int|
            0 <= i < lv.values@.len() ==> has_kinds(#[trigger] lv.values@[i]),
        Some(Kind::StructValue(st)) => forall|i: int|
            0 <= i < st.fields@.len() ==> has_kinds(#[trigger] st.fields@[i].1),
        _ => true,
    }
}

/// The writes that encode a value.
pub open(crate) spec fn value_writes(v: Value) -> Seq<JsonWriteView>
    decreases v, 1int,
{
    match v.kind {
        Some(Kind::NullValue(_)) => seq![JsonWriteView::Null],
        Some(Kind::BoolValue(b)) => seq![JsonWriteView::Bool(b)],
        Some(Kind::NumberValue(n)) => seq![number_write(n)],
        Some(Kind::StringValue(s)) => seq![JsonWriteView::Str(s@)],
        Some(Kind::ListValue(lv)) => seq![JsonWriteView::BeginArray] + items_writes(lv.values@)
            + seq![JsonWriteView::EndArray],
        Some(Kind::StructValue(st)) => seq![JsonWriteView::BeginObject] + fields_writes(
            st.fields@,
        ) + seq![JsonWriteView::EndObject],
        None => seq![],
    }
}

/// The writes that encode the items of a list, one after the other.
pub open spec fn items_writes(vs: Seq<Value>) -> Seq<JsonWriteView>
    decreases vs, 0int,
{
    if vs.len() == 0 {
        seq![]
    } else {
        items_writes(vs.drop_last()) + value_writes(vs.last())
    }
}

/// The writes that encode the fields of a structure: each name, then its
/// value.
pub open spec fn fields_writes(fs: Seq<(String, Value)>) -> Seq<JsonWriteView>
    decreases fs, 0int,
{
    if fs.len() == 0 {
        seq![]
    } else {
        fields_writes(fs.drop_last()) + seq![JsonWriteView::Name(fs.last().0@)] + value_writes(
            fs.last().1,
        )
    }
}

/// How a number is written.
pub fn write_number(b: u64) -> (w: JsonWrite)
    ensures
        w@ == number_write(b),
{
    if b & EXPONENT_MASK == EXPONENT_MASK {
        if b & FRACTION_MASK != 0 {
            JsonWrite::Str("NaN".to_owned())
        } else if b & SIGN_MASK != 0 {
            JsonWrite::Str("-Infinity".to_owned())
        } else {
            JsonWrite::Str("Infinity".to_owned())
        }
    } else {
        JsonWrite::Number(b)
    }
}

fn push_writes(v: &Value, out: &mut Vec<JsonWrite>)
    requires
        has_kinds(*v),
    ensures
        writes_view(final(out)@) == writes_view(old(out)@) + value_writes(*v),
    decreases *v,
{
    let ghost start = writes_view(out@);
    match &v.kind {
        Some(Kind::NullValue(_)) => {
            out.push(JsonWrite::Null);
            assert(writes_view(out@) =~= start + value_writes(*v));
        },
        Some(Kind::BoolValue(b)) => {
            out.push(JsonWrite::Bool(*b));
            assert(writes_view(out@) =~= start + value_writes(*v));
        },
        Some(Kind::NumberValue(n)) => {
            out.push(write_number(*n));
            assert(writes_view(out@) =~= start + value_writes(*v));
        },
        Some(Kind::StringValue(s)) => {
            out.push(JsonWrite::Str(s.clone()));
            assert(writes_view(out@) =~= start + value_writes(*v));
        },
        Some(Kind::ListValue(lv)) => {
            assert(forall|k: int| 0 <= k < lv.values@.len() ==> has_kinds(#[trigger] lv.values@[k]));
            out.push(JsonWrite::BeginArray);
            let mut i: usize = 0;
            while i < lv.values.len()
                invariant
                    i <= lv.values@.len(),
                    v.kind == Some(Kind::ListValue(*lv)),
                    forall|k: int| 0 <= k < lv.values@.len() ==> has_kinds(#[trigger] lv.values@[k]),
                    writes_view(out@) == start + seq![JsonWriteView::BeginArray] + items_writes(
                        lv.values@.take(i as int),
                    ),
                decreases lv.values@.len() - i,
            {
                assert(lv.values@.take(i + 1).drop_last() =~= lv.values@.take(i as int));
                assert(has_kinds(lv.values@[i as int]));
                proof {
                    let k = v.kind->Some_0;
                    assert(decreases_to!(*v => v.kind));
                    assert(decreases_to!(v.kind => k));
                    assert(decreases_to!(k => k->ListValue_0));
                    assert(k->ListValue_0 == *lv);
                    assert(decreases_to!(*lv => lv.values));
                    assert(decreases_to!(lv.values => lv.values@));
                    assert(decreases_to!(lv.values@ => lv.values@[i as int]));
                }
                push_writes(&lv.values[i], out);
                i = i + 1;
            }
            assert(lv.values@.take(lv.values@.len() as int) =~= lv.values@);
            let ghost before = writes_view(out@);
            out.push(JsonWrite::EndArray);
            assert(writes_view(out@) =~= before.push(JsonWriteView::EndArray));
            assert(writes_view(out@) =~= start + value_writes(*v));
        },
        Some(Kind::StructValue(st)) => {
            assert(forall|k: int| 0 <= k < st.fields@.len() ==> has_kinds(#[trigger] st.fields@[k].1));
            out.push(JsonWrite::BeginObject);
            let mut i: usize = 0;
            while i < st.fields.len()
                invariant
                    i <= st.fields@.len(),
                    v.kind == Some(Kind::StructValue(*st)),
                    forall|k: int| 0 <= k < st.fields@.len() ==> has_kinds(#[trigger] st.fields@[k].1),
                    writes_view(out@) == start + seq![JsonWriteView::BeginObject] + fields_writes(
                        st.fields@.take(i as int),
                    ),
                decreases st.fields@.len() - i,
            {
                assert(st.fields@.take(i + 1).drop_last() =~= st.fields@.take(i as int));
                assert(has_kinds(st.fields@[i as int].1));
                proof {
                    let k = v.kind->Some_0;
                    let f = st.fields@[i as int];
                    assert(decreases_to!(*v => v.kind));
                    assert(decreases_to!(v.kind => k));
                    assert(decreases_to!(k => k->StructValue_0));
                    assert(k->StructValue_0 == *st);
                    assert(decreases_to!(*st => st.fields));
                    assert(decreases_to!(st.fields => st.fields@));
                    assert(decreases_to!(st.fields@ => f));
                    assert(decreases_to!(f => f.1));
                }
                let ghost before = writes_view(out@);
                let name = st.fields[i].0.clone();
                out.push(JsonWrite::Name(name));
                assert(writes_view(out@) =~= before.push(JsonWriteView::Name(st.fields@[i as int].0@)));
                push_writes(&st.fields[i].1, out);
                assert(writes_view(out@) =~= start + seq![JsonWriteView::BeginObject] + fields_writes(
                    st.fields@.take(i + 1),
                ));
                i = i + 1;
            }
            assert(st.fields@.take(st.fields@.len() as int) =~= st.fields@);
            let ghost before = writes_view(out@);
            out.push(JsonWrite::EndObject);
            assert(writes_view(out@) =~= before.push(JsonWriteView::EndObject));
            assert(writes_view(out@) =~= start + value_writes(*v));
        },
        None => {},
    }
}

/// The writes that encode a well-formed value, in order: a structure's
/// members in the order of their names; a number that is not a number or is
/// infinite is written as the string of its name.
pub fn encode_writes(v: &Value) -> (r: Vec<JsonWrite>)
    requires
        well_formed_value(*v),
    ensures
        writes_view(r@) == value_writes(*v),
{
    proof {
        lemma_well_formed_has_kinds(*v);
    }
    let mut out: Vec<JsonWrite> = Vec::new();
    push_writes(v, &mut out);
    assert(writes_view(Seq::<JsonWrite>::empty()) =~= Seq::<JsonWriteView>::empty());
    assert(Seq::<JsonWriteView>::empty() + value_writes(*v) =~= value_writes(*v));
    out
}

} // verus!
