use crate::fields::{field_put, put_field, sorted_fields};
use crate::lines::strings_view;
use vstd::prelude::*;

verus! {

/// A dynamically typed message value: null, a number, a string, a boolean,
/// a structure of named values, or a list of values.
#[derive(Debug)]
pub struct Value {
    pub kind: Option<Kind>,
}

/// The kind of a value. A number is held as the bit pattern of a 64-bit
/// IEEE 754 floating-point number.
#[derive(Debug)]
pub enum Kind {
    NullValue(i32),
    NumberValue(u64),
    StringValue(String),
    BoolValue(bool),
    StructValue(Struct),
    ListValue(ListValue),
}

/// Named values, ordered by name, each name once, as in a map from names to
/// values: the type's invariant, which `new`, `insert` and the JSON decoder
/// keep, and on which the JSON encoder's key order rests.
#[derive(Debug)]
pub struct Struct {
    pub(crate) fields: Vec<(String, Value)>,
}

impl Struct {
    /// The fields are ordered by name, each name once, as in a map from
    /// names to values: every structure that code builds keeps this.
    #[verifier::type_invariant]
    spec fn wf(&self) -> bool {
        sorted_fields(self.fields@)
    }

    /// The fields, in the order of their names.
    pub closed spec fn spec_fields(&self) -> Seq<(String, Value)> {
        self.fields@
    }

    /// The fields, in the order of their names.
    pub fn fields(&self) -> (r: &Vec<(String, Value)>)
        ensures
            r@ == self.spec_fields(),
            sorted_fields(r@),
    {
        proof {
            use_type_invariant(self);
        }
        &self.fields
    }

    /// A structure without fields.
    pub fn new() -> (st: Struct)
        ensures
            st.spec_fields() == Seq::<(String, Value)>::empty(),
    {
        Struct { fields: Vec::new() }
    }

    /// A structure with the given fields, which are ordered by name, each
    /// name once.
    pub(crate) fn from_sorted(fields: Vec<(String, Value)>) -> (st: Struct)
        requires
            sorted_fields(fields@),
        ensures
            st == (Struct { fields }),
    {
        Struct { fields }
    }

    /// Sets a field, as a map from names to values does: replaces the value
    /// of a name already there, else adds the field where its name belongs.
    pub fn insert(&mut self, name: String, value: Value)
        ensures
            sorted_fields(final(self).spec_fields()),
            field_put(old(self).spec_fields(), name@, value, final(self).spec_fields()),
    {
        let mut taken = Struct::new();
        std::mem::swap(self, &mut taken);
        proof {
            use_type_invariant(&taken);
        }
        let mut fields = taken.fields;
        put_field(&mut fields, name, value);
        *self = Struct { fields };
    }
}

/// A list of values.
#[derive(Debug)]
pub struct ListValue {
    pub values: Vec<Value>,
}

/// The strings among `vs`, in order; values of other kinds are left out.
pub open spec fn string_items(vs: Seq<Value>) -> Seq<Seq<char>>
    decreases vs.len(),
{
    if vs.len() == 0 {
        seq![]
    } else {
        let rest = string_items(vs.drop_last());
        match vs.last().kind {
            Some(Kind::StringValue(s)) => rest.push(s@),
            _ => rest,
        }
    }
}

/// The strings of two lists one after the other are the strings of the
/// first, then those of the second.
pub proof fn lemma_string_items_concat(a: Seq<Value>, b: Seq<Value>)
    ensures
        string_items(a + b) == string_items(a) + string_items(b),
    decreases b.len(),
{
    if b.len() == 0 {
        assert(a + b =~= a);
        assert(string_items(a) + string_items(b) =~= string_items(a));
    } else {
        lemma_string_items_concat(a, b.drop_last());
        assert((a + b).drop_last() =~= a + b.drop_last());
        assert((a + b).last() == b.last());
        match b.last().kind {
            Some(Kind::StringValue(s)) => {
                assert(string_items(a) + string_items(b) =~= (string_items(a) + string_items(
                    b.drop_last(),
                )).push(s@));
            },
            _ => {},
        }
    }
}

/// Each item gives its string where it holds one, and nothing at all where
/// it holds anything else (a null, a number, a boolean, a structure, a list
/// or no kind): a list's strings are its string items, one each, in order,
/// and taking any other item out of the list leaves them as they were.
pub proof fn lemma_string_items_per_item(vs: Seq<Value>, i: int)
    requires
        0 <= i < vs.len(),
    ensures
        vs[i].kind matches Some(Kind::StringValue(s)) ==> string_items(vs) == string_items(vs.take(i))
            + seq![s@] + string_items(vs.skip(i + 1)),
        !(vs[i].kind matches Some(Kind::StringValue(_))) ==> string_items(vs) == string_items(
            vs.take(i),
        ) + string_items(vs.skip(i + 1)),
        !(vs[i].kind matches Some(Kind::StringValue(_))) ==> string_items(vs) == string_items(
            vs.take(i) + vs.skip(i + 1),
        ),
{
    let one = seq![vs[i]];
    assert(vs =~= vs.take(i) + one + vs.skip(i + 1));
    lemma_string_items_concat(vs.take(i) + one, vs.skip(i + 1));
    lemma_string_items_concat(vs.take(i), one);
    lemma_string_items_concat(vs.take(i), vs.skip(i + 1));
    assert(one.drop_last() =~= Seq::<Value>::empty());
    assert(string_items(Seq::<Value>::empty()) == Seq::<Seq<char>>::empty());
    match vs[i].kind {
        Some(Kind::StringValue(s)) => {
            assert(string_items(one) =~= seq![s@]);
        },
        _ => {
            assert(string_items(one) =~= Seq::<Seq<char>>::empty());
            assert(string_items(vs.take(i)) + string_items(one) =~= string_items(vs.take(i)));
        },
    }
}

/// `v` holds the string `s`.
pub open spec fn is_string_value(v: Value, s: Seq<char>) -> bool {
    match v.kind {
        Some(Kind::StringValue(t)) => t@ == s,
        _ => false,
    }
}

/// `v` is a list whose items are the strings `fields`, in order.
pub open spec fn is_string_list(v: Value, fields: Seq<Seq<char>>) -> bool {
    &&& v.kind matches Some(Kind::ListValue(lv))
    &&& lv.values@.len() == fields.len()
    &&& forall|i: int| 0 <= i < fields.len() ==> is_string_value(#[trigger] lv.values@[i], fields[i])
}

impl Value {
    /// A value holding a string.
    pub fn string(s: String) -> (v: Value)
        ensures
            is_string_value(v, s@),
    {
        Value { kind: Some(Kind::StringValue(s)) }
    }

    /// A list of the given strings, in order.
    pub fn string_list(fields: Vec<String>) -> (v: Value)
        ensures
            is_string_list(v, strings_view(fields@)),
    {
        let mut values: Vec<Value> = Vec::new();
        let mut i: usize = 0;
        while i < fields.len()
            invariant
                i <= fields@.len(),
                values@.len() == i,
                forall|k: int| 0 <= k < i ==> is_string_value(#[trigger] values@[k], fields@[k]@),
            decreases fields@.len() - i,
        {
            let s = fields[i].clone();
            values.push(Value::string(s));
            i = i + 1;
        }
        Value { kind: Some(Kind::ListValue(ListValue { values })) }
    }
}

/// The strings among the values, in order.
pub fn strings_of(vs: &Vec<Value>) -> (r: Vec<String>)
    ensures
        strings_view(r@) == string_items(vs@),
{
    let mut r: Vec<String> = Vec::new();
    let mut i: usize = 0;
    while i < vs.len()
        invariant
            i <= vs@.len(),
            strings_view(r@) == string_items(vs@.take(i as int)),
        decreases vs@.len() - i,
    {
        assert(vs@.take(i + 1).drop_last() =~= vs@.take(i as int));
        let ghost before = strings_view(r@);
        match &vs[i].kind {
            Some(Kind::StringValue(s)) => {
                r.push(s.clone());
                assert(strings_view(r@) =~= before.push(s@));
            },
            _ => {},
        }
        i = i + 1;
    }
    assert(vs@.take(vs@.len() as int) =~= vs@);
    r
}

} // verus!
