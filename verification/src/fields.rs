use crate::strings::{char_table, str_eq};
use crate::value::Value;
use vstd::prelude::*;

verus! {

/// `a` comes before `b` in the order of strings: compared character by
/// character by code point, a proper prefix first.
pub open spec fn key_less(a: Seq<char>, b: Seq<char>) -> bool
    decreases a.len(),
{
    if a.len() == 0 {
        b.len() > 0
    } else if b.len() == 0 {
        false
    } else if a[0] < b[0] {
        true
    } else if a[0] == b[0] {
        key_less(a.drop_first(), b.drop_first())
    } else {
        false
    }
}

/// No string comes before itself.
pub proof fn lemma_key_less_irreflexive(a: Seq<char>)
    ensures
        !key_less(a, a),
    decreases a.len(),
{
    if a.len() > 0 {
        lemma_key_less_irreflexive(a.drop_first());
    }
}

/// Of two strings, one comes before the other, or they are the same.
pub proof fn lemma_key_less_total(a: Seq<char>, b: Seq<char>)
    ensures
        a == b || key_less(a, b) || key_less(b, a),
    decreases a.len(),
{
    if a.len() > 0 && b.len() > 0 {
        if a[0] == b[0] {
            lemma_key_less_total(a.drop_first(), b.drop_first());
            if a.drop_first() == b.drop_first() {
                assert(a =~= seq![a[0]] + a.drop_first());
                assert(b =~= seq![b[0]] + b.drop_first());
            }
        } else {
            assert(a[0] < b[0] || b[0] < a[0]);
        }
    } else if a.len() == 0 && b.len() == 0 {
        assert(a =~= b);
    }
}

/// The order of strings is transitive.
pub proof fn lemma_key_less_transitive(a: Seq<char>, b: Seq<char>, c: Seq<char>)
    requires
        key_less(a, b),
        key_less(b, c),
    ensures
        key_less(a, c),
    decreases a.len(),
{
    if a.len() > 0 && b.len() > 0 && c.len() > 0 {
        if a[0] == b[0] && b[0] == c[0] {
            lemma_key_less_transitive(a.drop_first(), b.drop_first(), c.drop_first());
        }
    }
}

/// Comparing strings that agree on their first `i` characters is comparing
/// what follows.
proof fn lemma_key_less_skip(a: Seq<char>, b: Seq<char>, i: int)
    requires
        0 <= i <= a.len(),
        i <= b.len(),
        forall|j: int| 0 <= j < i ==> a[j] == b[j],
    ensures
        key_less(a, b) == key_less(a.skip(i), b.skip(i)),
    decreases i,
{
    if i > 0 {
        lemma_key_less_skip(a.drop_first(), b.drop_first(), i - 1);
        assert(a.drop_first().skip(i - 1) =~= a.skip(i));
        assert(b.drop_first().skip(i - 1) =~= b.skip(i));
    } else {
        assert(a.skip(0) =~= a);
        assert(b.skip(0) =~= b);
    }
}

/// Whether `a` comes before `b` in the order of strings.
pub fn chars_less(a: &Vec<char>, b: &Vec<char>) -> (r: bool)
    ensures
        r == key_less(a@, b@),
{
    let mut i: usize = 0;
    while i < a.len() && i < b.len() && a[i] == b[i]
        invariant
            i <= a@.len(),
            i <= b@.len(),
            forall|j: int| 0 <= j < i ==> a@[j] == b@[j],
        decreases a@.len() - i,
    {
        i = i + 1;
    }
    proof {
        lemma_key_less_skip(a@, b@, i as int);
    }
    if i == a.len() {
        i < b.len()
    } else if i == b.len() {
        false
    } else {
        a[i] < b[i]
    }
}

/// Whether string `a` comes before string `b`.
pub fn str_less(a: &str, b: &str) -> (r: bool)
    ensures
        r == key_less(a@, b@),
{
    let (ca, _) = char_table(a);
    let (cb, _) = char_table(b);
    chars_less(&ca, &cb)
}

/// The fields are in the order of their names, each name once.
pub open spec fn sorted_fields(fs: Seq<(String, Value)>) -> bool {
    forall|i: int, j: int| 0 <= i < j < fs.len() ==> key_less(#[trigger] fs[i].0@, #[trigger] fs[j].0@)
}

/// `gs` is `fs` with the field `k` set to `v`: its value replaced where `fs`
/// has the name, else a new field put where its name belongs in the order.
pub open spec fn field_put(
    fs: Seq<(String, Value)>,
    k: Seq<char>,
    v: Value,
    gs: Seq<(String, Value)>,
) -> bool {
    ||| exists|i: int|
        0 <= i < fs.len() && fs[i].0@ == k && gs.len() == fs.len() && gs[i].0@ == k && gs[i].1
            == v && forall|j: int| 0 <= j < fs.len() && j != i ==> gs[j] == fs[j]
    ||| (forall|i: int| 0 <= i < fs.len() ==> fs[i].0@ != k) && exists|p: int|
        0 <= p <= fs.len() && gs.len() == fs.len() + 1 && gs[p].0@ == k && gs[p].1 == v && (
        forall|j: int| 0 <= j < p ==> gs[j] == fs[j]) && (forall|j: int|
            p < j < gs.len() ==> gs[j] == fs[j - 1])
}

/// Sets a field in fields ordered by name, as a map from names to values
/// does: replaces the value of a name already there, else adds the field
/// where its name belongs.
pub fn put_field(fields: &mut Vec<(String, Value)>, key: String, value: Value)
    requires
        sorted_fields(old(fields)@),
    ensures
        sorted_fields(final(fields)@),
        field_put(old(fields)@, key@, value, final(fields)@),
{
    let ghost fs = fields@;
    let ghost k = key@;
    let mut p: usize = 0;
    while p < fields.len() && str_less(fields[p].0.as_str(), key.as_str())
        invariant
            fields@ == fs,
            key@ == k,
            sorted_fields(fs),
            p <= fs.len(),
            forall|j: int| 0 <= j < p ==> key_less(#[trigger] fs[j].0@, k),
        decreases fs.len() - p,
    {
        p = p + 1;
    }
    if p < fields.len() && str_eq(fields[p].0.as_str(), key.as_str()) {
        let ghost v = value;
        fields.set(p, (key, value));
        proof {
            assert(fields@[p as int].0@ == k);
            assert forall|i: int, j: int| 0 <= i < j < fields@.len() implies key_less(
                #[trigger] fields@[i].0@,
                #[trigger] fields@[j].0@,
            ) by {
                assert(fs[i].0@ == fields@[i].0@ || i == p);
                assert(fs[j].0@ == fields@[j].0@ || j == p);
                assert(key_less(fs[i].0@, fs[j].0@));
            }
            assert(field_put(fs, k, v, fields@));
        }
    } else {
        proof {
            if p < fs.len() {
                assert(!key_less(fs[p as int].0@, k));
                assert(fs[p as int].0@ != k);
                lemma_key_less_total(fs[p as int].0@, k);
                assert(key_less(k, fs[p as int].0@));
            }
            assert forall|i: int| 0 <= i < fs.len() implies fs[i].0@ != k by {
                if i < p {
                    lemma_key_less_irreflexive(k);
                } else if i > p {
                    assert(key_less(fs[p as int].0@, fs[i].0@));
                    lemma_key_less_transitive(k, fs[p as int].0@, fs[i].0@);
                    lemma_key_less_irreflexive(k);
                }
            }
        }
        let ghost v = value;
        fields.insert(p, (key, value));
        proof {
            assert forall|i: int, j: int| 0 <= i < j < fields@.len() implies key_less(
                #[trigger] fields@[i].0@,
                #[trigger] fields@[j].0@,
            ) by {
                if j < p {
                    assert(key_less(fs[i].0@, fs[j].0@));
                } else if j == p {
                    assert(fields@[i] == fs[i]);
                } else if i < p {
                    assert(fields@[j] == fs[j - 1]);
                    assert(key_less(fs[i].0@, k));
                    assert(key_less(k, fs[p as int].0@));
                    if j - 1 > p {
                        lemma_key_less_transitive(k, fs[p as int].0@, fs[j - 1].0@);
                    }
                    lemma_key_less_transitive(fs[i].0@, k, fs[j - 1].0@);
                } else if i == p {
                    assert(fields@[j] == fs[j - 1]);
                    if j - 1 > p {
                        lemma_key_less_transitive(k, fs[p as int].0@, fs[j - 1].0@);
                    }
                } else {
                    assert(fields@[i] == fs[i - 1]);
                    assert(fields@[j] == fs[j - 1]);
                    assert(key_less(fs[i - 1].0@, fs[j - 1].0@));
                }
            }
            assert(field_put(fs, k, v, fields@)) by {
                assert(fields@[p as int].0@ == k);
            }
        }
    }
}

} // verus!
