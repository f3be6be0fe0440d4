use crate::lines::strings_view;
use crate::strings::{char_table, substring};
use vstd::prelude::*;
use vstd::string::*;

verus! {

/// The parts joined into one sequence, with `sep` between each two of them.
pub open spec fn spec_join(parts: Seq<Seq<char>>, sep: Seq<char>) -> Seq<char>
    decreases parts.len(),
{
    if parts.len() == 0 {
        seq![]
    } else if parts.len() == 1 {
        parts[0]
    } else {
        spec_join(parts.drop_last(), sep) + sep + parts.last()
    }
}

/// `d` occurs in `s` at position `i`.
pub open spec fn matches_at(s: Seq<char>, i: int, d: Seq<char>) -> bool {
    0 <= i && i + d.len() <= s.len() && s.subrange(i, i + d.len()) == d
}

/// The position of the leftmost occurrence of `d` in `s`, if any.
pub open spec fn first_match(s: Seq<char>, d: Seq<char>) -> Option<int>
    decreases s.len(),
{
    if s.len() < d.len() {
        None
    } else if matches_at(s, 0, d) {
        Some(0)
    } else if s.len() == 0 {
        None
    } else {
        match first_match(s.drop_first(), d) {
            Some(k) => Some(k + 1),
            None => None,
        }
    }
}

/// Where `s` is first found, if it is.
pub proof fn lemma_first_match_bounds(s: Seq<char>, d: Seq<char>)
    ensures
        first_match(s, d) matches Some(k) ==> matches_at(s, k, d) && forall|q: int|
            0 <= q < k ==> !matches_at(s, q, d),
        first_match(s, d) is None ==> forall|q: int| !matches_at(s, q, d),
    decreases s.len(),
{
    if s.len() >= d.len() && !matches_at(s, 0, d) && s.len() > 0 {
        let t = s.drop_first();
        lemma_first_match_bounds(t, d);
        assert forall|q: int| 1 <= q implies matches_at(s, q, d) == matches_at(t, q - 1, d) by {
            if q + d.len() <= s.len() {
                assert(s.subrange(q, q + d.len()) =~= t.subrange(q - 1, q - 1 + d.len()));
            }
        }
        assert forall|q: int| !matches_at(s, q, d) || q >= 1 by {
            if q == 0 {
            }
        }
    }
}

/// The pieces of `s` between the leftmost non-overlapping occurrences of a
/// non-empty `d`, from left to right.
pub open spec fn spec_split_nonempty(s: Seq<char>, d: Seq<char>) -> Seq<Seq<char>>
    decreases s.len(),
{
    if d.len() == 0 {
        seq![s]
    } else {
        match first_match(s, d) {
            Some(i) => {
                proof {
                    lemma_first_match_bounds(s, d);
                }
                seq![s.take(i)] + spec_split_nonempty(s.skip(i + d.len()), d)
            },
            None => seq![s],
        }
    }
}

/// The pieces of `s` split by `d`: by an empty `d`, an empty piece, one piece
/// per character, and another empty piece; by a non-empty one, the pieces
/// between its leftmost non-overlapping occurrences.
pub open spec fn spec_split(s: Seq<char>, d: Seq<char>) -> Seq<Seq<char>> {
    if d.len() == 0 {
        seq![Seq::<char>::empty()] + Seq::new(s.len(), |i: int| seq![s[i]]) + seq![
            Seq::<char>::empty(),
        ]
    } else {
        spec_split_nonempty(s, d)
    }
}

/// Whether `d` occurs in `cs` at position `i`.
fn matches_at_exec(cs: &Vec<char>, i: usize, ds: &Vec<char>) -> (r: bool)
    requires
        i + ds@.len() <= cs@.len(),
    ensures
        r == matches_at(cs@, i as int, ds@),
{
    let m = ds.len();
    let n = cs.len();
    let mut j: usize = 0;
    while j < m
        invariant
            m == ds@.len(),
            n == cs@.len(),
            i + m <= n,
            j <= m,
            forall|q: int| 0 <= q < j ==> cs@[i + q] == ds@[q],
        decreases m - j,
    {
        if cs[i + j] != ds[j] {
            assert(cs@.subrange(i as int, i + m)[j as int] != ds@[j as int]);
            return false;
        }
        j = j + 1;
    }
    assert(cs@.subrange(i as int, i + m) =~= ds@);
    true
}

/// Splits a string by a delimiter, as `str::split` does.
pub fn split_str(s: &str, delimiter: &str) -> (r: Vec<String>)
    ensures
        strings_view(r@) == spec_split(s@, delimiter@),
{
    let (cs, offsets) = char_table(s);
    let (ds, _) = char_table(delimiter);
    let bytes = s.as_bytes();
    let n = cs.len();
    let m = ds.len();
    let mut out: Vec<String> = Vec::new();
    if m == 0 {
        out.push(String::new());
        let mut k: usize = 0;
        while k < n
            invariant
                n == cs@.len() == s@.len(),
                bytes@ == vstd::utf8::encode_utf8(s@),
                offsets@.len() == s@.len() + 1,
                forall|q: int| 0 <= q <= s@.len() ==> offsets@[q] == crate::strings::byte_offset(
                    s@,
                    q,
                ),
                k <= n,
                strings_view(out@) == seq![Seq::<char>::empty()] + Seq::new(
                    k as nat,
                    |i: int| seq![s@[i]],
                ),
            decreases n - k,
        {
            let piece = substring(s, bytes, &offsets, k, k + 1);
            let ghost before = strings_view(out@);
            out.push(piece);
            assert(s@.subrange(k as int, k + 1) =~= seq![s@[k as int]]);
            assert(strings_view(out@) =~= before.push(piece@));
            assert(before.push(piece@) =~= seq![Seq::<char>::empty()] + Seq::new(
                (k + 1) as nat,
                |i: int| seq![s@[i]],
            ));
            k = k + 1;
        }
        out.push(String::new());
        assert(strings_view(out@) =~= spec_split(s@, delimiter@));
        return out;
    }
    let mut start: usize = 0;
    let mut i: usize = 0;
    assert(s@.skip(0) =~= s@);
    assert(strings_view(out@) + spec_split_nonempty(s@, delimiter@) =~= spec_split_nonempty(
        s@,
        delimiter@,
    ));
    while i <= n && m <= n - i
        invariant
            n == cs@.len() == s@.len(),
            cs@ == s@,
            ds@ == delimiter@,
            m == ds@.len(),
            m > 0,
            bytes@ == vstd::utf8::encode_utf8(s@),
            offsets@.len() == s@.len() + 1,
            forall|q: int| 0 <= q <= s@.len() ==> offsets@[q] == crate::strings::byte_offset(s@, q),
            start <= i <= n,
            spec_split_nonempty(s@, delimiter@) == strings_view(out@) + spec_split_nonempty(
                s@.skip(start as int),
                delimiter@,
            ),
            forall|q: int| start <= q < i ==> !matches_at(s@, q, delimiter@),
        decreases n - i,
    {
        if matches_at_exec(&cs, i, &ds) {
            let ghost t = s@.skip(start as int);
            proof {
                assert forall|q: int| 0 <= q < i - start implies !matches_at(t, q, delimiter@) by {
                    if matches_at(t, q, delimiter@) {
                        assert(t.subrange(q, q + m) =~= s@.subrange(start + q, start + q + m));
                        assert(matches_at(s@, start + q, delimiter@));
                    }
                }
                assert(t.subrange(i - start, i - start + m) =~= s@.subrange(i as int, i + m));
                assert(matches_at(t, i - start, delimiter@));
                lemma_first_match_bounds(t, delimiter@);
                assert(first_match(t, delimiter@) == Some((i - start) as int));
                assert(t.take(i - start) =~= s@.subrange(start as int, i as int));
                assert(t.skip(i - start + m) =~= s@.skip(i + m));
            }
            let piece = substring(s, bytes, &offsets, start, i);
            let ghost before = strings_view(out@);
            out.push(piece);
            assert(strings_view(out@) =~= before.push(piece@));
            assert(before + spec_split_nonempty(t, delimiter@) =~= strings_view(out@)
                + spec_split_nonempty(s@.skip(i + m), delimiter@));
            i = i + m;
            start = i;
        } else {
            i = i + 1;
        }
    }
    let ghost t = s@.skip(start as int);
    proof {
        assert forall|q: int| !matches_at(t, q, delimiter@) by {
            if matches_at(t, q, delimiter@) {
                assert(t.subrange(q, q + m) =~= s@.subrange(start + q, start + q + m));
                assert(matches_at(s@, start + q, delimiter@));
                assert(start + q < i);
            }
        }
        lemma_first_match_bounds(t, delimiter@);
        assert(t =~= s@.subrange(start as int, n as int));
    }
    let piece = substring(s, bytes, &offsets, start, n);
    let ghost before = strings_view(out@);
    out.push(piece);
    assert(strings_view(out@) =~= before + seq![piece@]);
    out
}

/// Splits a string at the first occurrence of a delimiter, as
/// `str::split_once` does: the text before it and the text after it, or
/// `None` where it does not occur.
pub fn split_once(s: &str, delimiter: &str) -> (r: Option<(String, String)>)
    ensures
        match first_match(s@, delimiter@) {
            Some(i) => r matches Some(p) && p.0@ == s@.take(i) && p.1@ == s@.skip(
                i + delimiter@.len(),
            ),
            None => r is None,
        },
{
    let (cs, offsets) = char_table(s);
    let (ds, _) = char_table(delimiter);
    let bytes = s.as_bytes();
    let n = cs.len();
    let m = ds.len();
    let mut i: usize = 0;
    proof {
        lemma_first_match_bounds(s@, delimiter@);
    }
    while m <= n - i
        invariant
            n == cs@.len() == s@.len(),
            cs@ == s@,
            ds@ == delimiter@,
            m == ds@.len(),
            bytes@ == vstd::utf8::encode_utf8(s@),
            offsets@.len() == s@.len() + 1,
            forall|q: int| 0 <= q <= s@.len() ==> offsets@[q] == crate::strings::byte_offset(s@, q),
            i <= n,
            forall|q: int| 0 <= q < i ==> !matches_at(s@, q, delimiter@),
            first_match(s@, delimiter@) matches Some(k) ==> matches_at(s@, k, delimiter@) && forall|q: int|
                0 <= q < k ==> !matches_at(s@, q, delimiter@),
            first_match(s@, delimiter@) is None ==> forall|q: int| !matches_at(s@, q, delimiter@),
        decreases n - i,
    {
        if matches_at_exec(&cs, i, &ds) {
            let before = substring(s, bytes, &offsets, 0, i);
            let after = substring(s, bytes, &offsets, i + m, n);
            proof {
                assert(s@.subrange(0, i as int) =~= s@.take(i as int));
                assert(s@.subrange(i + m, n as int) =~= s@.skip(i + m));
                match first_match(s@, delimiter@) {
                    Some(k) => {
                        if k < i {
                            assert(!matches_at(s@, k, delimiter@));
                        }
                        if k > i {
                            assert(!matches_at(s@, i as int, delimiter@));
                        }
                    },
                    None => {
                        assert(!matches_at(s@, i as int, delimiter@));
                    },
                }
            }
            return Some((before, after));
        }
        proof {
            if m == 0 {
                assert(s@.subrange(i as int, i as int) =~= delimiter@);
            }
        }
        i = i + 1;
    }
    proof {
        if first_match(s@, delimiter@) is Some {
            let k = first_match(s@, delimiter@)->Some_0;
            assert(matches_at(s@, k, delimiter@));
            if k < i {
                assert(!matches_at(s@, k, delimiter@));
            }
        }
    }
    None
}

} // verus!

verus! {

/// Joins strings, with `sep` between each two of them.
pub fn join_strings(parts: &Vec<String>, sep: &str) -> (r: String)
    ensures
        r@ == spec_join(strings_view(parts@), sep@),
{
    let mut r = String::new();
    let ghost pv = strings_view(parts@);
    let mut i: usize = 0;
    while i < parts.len()
        invariant
            pv == strings_view(parts@),
            i <= parts@.len(),
            r@ == spec_join(pv.take(i as int), sep@),
        decreases parts@.len() - i,
    {
        assert(pv.take(i + 1).drop_last() =~= pv.take(i as int));
        assert(pv.take(i + 1).last() == parts@[i as int]@);
        if i != 0 {
            r.append(sep);
        } else {
            assert(pv.take(0) =~= Seq::<Seq<char>>::empty());
            assert(r@ =~= Seq::<char>::empty());
        }
        r.append(parts[i].as_str());
        proof {
            if i == 0 {
                assert(r@ =~= pv.take(1)[0]);
            }
        }
        i = i + 1;
    }
    assert(pv.take(parts@.len() as int) =~= pv);
    r
}

/// Joins the non-empty strings it receives with a joiner; sends the result
/// when its input closes.
pub struct ConcatStrings {
    inputs: Vec<String>,
    joiner: String,
}

impl ConcatStrings {
    /// The non-empty strings received so far.
    pub closed spec fn spec_inputs(&self) -> Seq<Seq<char>> {
        strings_view(self.inputs@)
    }

    /// The string put between each two inputs.
    pub closed spec fn spec_joiner(&self) -> Seq<char> {
        self.joiner@
    }

    /// A block that joins with the empty string.
    pub fn new() -> (c: Self)
        ensures
            c.spec_inputs() == Seq::<Seq<char>>::empty(),
            c.spec_joiner() == Seq::<char>::empty(),
    {
        Self::with_params(None)
    }

    /// A block that joins with the given joiner, or the empty string.
    pub fn with_params(joiner: Option<String>) -> (c: Self)
        ensures
            c.spec_inputs() == Seq::<Seq<char>>::empty(),
            c.spec_joiner() == match joiner {
                Some(j) => j@,
                None => Seq::<char>::empty(),
            },
    {
        let joiner = match joiner {
            Some(j) => j,
            None => String::new(),
        };
        let c = ConcatStrings { inputs: Vec::new(), joiner };
        assert(strings_view(c.inputs@) =~= Seq::<Seq<char>>::empty());
        c
    }

    /// The string put between each two inputs.
    pub fn joiner(&self) -> (j: &String)
        ensures
            j@ == self.spec_joiner(),
    {
        &self.joiner
    }

    /// Keeps a string unless it is empty.
    pub fn on_input(&mut self, input: String)
        ensures
            final(self).spec_joiner() == old(self).spec_joiner(),
            input@.len() == 0 ==> final(self).spec_inputs() == old(self).spec_inputs(),
            input@.len() != 0 ==> final(self).spec_inputs() == old(self).spec_inputs().push(input@),
    {
        if !input.as_str().is_empty() {
            let ghost before = strings_view(self.inputs@);
            self.inputs.push(input);
            assert(strings_view(self.inputs@) =~= before.push(input@));
        }
    }

    /// The input is closed: the string to send, the kept strings joined.
    pub fn on_input_closed(&self) -> (r: String)
        ensures
            r@ == spec_join(self.spec_inputs(), self.spec_joiner()),
    {
        join_strings(&self.inputs, self.joiner.as_str())
    }
}

/// Splits each string it receives by a delimiter, sending the pieces in order.
pub struct SplitString {
    delimiter: String,
}

impl SplitString {
    /// The delimiter.
    pub closed spec fn spec_delimiter(&self) -> Seq<char> {
        self.delimiter@
    }

    /// A block that splits by the empty string.
    pub fn new() -> (s: Self)
        ensures
            s.spec_delimiter() == Seq::<char>::empty(),
    {
        Self::with_params(None)
    }

    /// A block that splits by the given delimiter, or the empty string.
    pub fn with_params(delimiter: Option<String>) -> (s: Self)
        ensures
            s.spec_delimiter() == match delimiter {
                Some(d) => d@,
                None => Seq::<char>::empty(),
            },
    {
        let delimiter = match delimiter {
            Some(d) => d,
            None => String::new(),
        };
        SplitString { delimiter }
    }

    /// The delimiter.
    pub fn delimiter(&self) -> (d: &String)
        ensures
            d@ == self.spec_delimiter(),
    {
        &self.delimiter
    }

    /// The pieces to send for a received string.
    pub fn on_input(&self, input: &str) -> (r: Vec<String>)
        ensures
            strings_view(r@) == spec_split(input@, self.spec_delimiter()),
    {
        split_str(input, self.delimiter.as_str())
    }
}

/// Joining two or more parts puts the first part, then the separator, then
/// the rest joined.
pub proof fn lemma_join_front(parts: Seq<Seq<char>>, sep: Seq<char>)
    requires
        parts.len() >= 2,
    ensures
        spec_join(parts, sep) == parts[0] + sep + spec_join(parts.drop_first(), sep),
    decreases parts.len(),
{
    let dl = parts.drop_last();
    let df = parts.drop_first();
    if parts.len() == 2 {
        assert(dl =~= seq![parts[0]]);
        assert(df =~= seq![parts[1]]);
        assert(spec_join(dl, sep) == parts[0]);
        assert(spec_join(df, sep) == parts[1]);
    } else {
        lemma_join_front(dl, sep);
        assert(dl.drop_first() =~= df.drop_last());
        assert(df.last() == parts.last());
        assert(dl[0] == parts[0]);
        let mid = spec_join(df.drop_last(), sep);
        assert(spec_join(df, sep) == mid + sep + df.last());
        assert(spec_join(parts, sep) == parts[0] + sep + mid + sep + parts.last());
        assert(parts[0] + sep + mid + sep + parts.last() =~= parts[0] + sep + (mid + sep
            + parts.last()));
    }
}

/// The character `c` does not occur in `s`.
pub open spec fn lacks_char(s: Seq<char>, c: char) -> bool {
    forall|j: int| 0 <= j < s.len() ==> s[j] != c
}

/// Splitting, by a one-character delimiter, parts that do not contain it,
/// joined with it, gives back the parts.
pub proof fn lemma_split_join_roundtrip(parts: Seq<Seq<char>>, d: Seq<char>)
    requires
        parts.len() >= 1,
        d.len() == 1,
        forall|i: int| 0 <= i < parts.len() ==> lacks_char(#[trigger] parts[i], d[0]),
    ensures
        spec_split(spec_join(parts, d), d) == parts,
    decreases parts.len(),
{
    let s = spec_join(parts, d);
    assert(lacks_char(parts[0], d[0]));
    if parts.len() == 1 {
        assert(s == parts[0]);
        assert forall|q: int| !matches_at(s, q, d) by {
            if matches_at(s, q, d) {
                assert(s.subrange(q, q + 1)[0] == d[0]);
                assert(s[q] == d[0]);
            }
        }
        lemma_first_match_bounds(s, d);
        assert(first_match(s, d) is None);
        assert(spec_split_nonempty(s, d) == seq![s]);
        assert(seq![s] =~= parts);
    } else {
        lemma_join_front(parts, d);
        let p0 = parts[0];
        let rest = spec_join(parts.drop_first(), d);
        let k = p0.len() as int;
        assert(s == p0 + d + rest);
        assert(s.subrange(k, k + 1) =~= d);
        assert forall|q: int| 0 <= q < k implies !matches_at(s, q, d) by {
            if matches_at(s, q, d) {
                assert(s.subrange(q, q + 1)[0] == d[0]);
                assert(s[q] == p0[q]);
            }
        }
        lemma_first_match_bounds(s, d);
        assert(s.take(k) =~= p0);
        assert(s.skip(k + 1) =~= rest);
        assert forall|i: int| 0 <= i < parts.drop_first().len() implies lacks_char(
            #[trigger] parts.drop_first()[i],
            d[0],
        ) by {
            assert(parts.drop_first()[i] == parts[i + 1]);
        }
        lemma_split_join_roundtrip(parts.drop_first(), d);
        assert(matches_at(s, k, d));
        match first_match(s, d) {
            Some(j) => {
                if j < k {
                    assert(!matches_at(s, j, d));
                }
                if j > k {
                    assert(!matches_at(s, k, d));
                }
            },
            None => {
                assert(!matches_at(s, k, d));
            },
        }
        assert(first_match(s, d) == Some(k));
        assert(spec_split_nonempty(s, d) == seq![s.take(k)] + spec_split_nonempty(
            s.skip(k + 1),
            d,
        ));
        assert(spec_split(rest, d) == spec_split_nonempty(rest, d));
        assert(seq![p0] + parts.drop_first() =~= parts);
    }
}

} // verus!
