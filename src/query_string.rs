//! Decoding of `key=value&key=value` query strings.

use vstd::prelude::*;
use crate::text::{split_at_char, split_once, text_eq};

verus! {

/// The value(s) given for one key, in the order they occur.
#[derive(Debug, PartialEq, Eq)]
pub enum Value<'buf> {
    Single(&'buf str),
    Multiple(Vec<&'buf str>),
}

impl<'buf> Value<'buf> {
    /// The values in order of occurrence.
    pub open spec fn values(&self) -> Seq<Seq<char>> {
        match self {
            Value::Single(s) => seq![s@],
            Value::Multiple(v) => v@.map_values(|x: &str| x@),
        }
    }

    /// A key that occurred more than once holds a `Multiple`, one that occurred
    /// once a `Single`.
    pub open spec fn wf(&self) -> bool {
        match self {
            Value::Single(_) => true,
            Value::Multiple(v) => v@.len() >= 2,
        }
    }
}

/// One decoded entry: a key and its values.
pub type Entry = (Seq<char>, Seq<Seq<char>>);

/// Splits `s` on every `&`.
pub open spec fn split_all(s: Seq<char>) -> Seq<Seq<char>>
    decreases s.len(),
{
    match split_once(s, '&') {
        Some(p) => seq![p.0] + split_all(p.1),
        None => seq![s],
    }
}

/// The fragments of a query string; none for the empty string.
pub open spec fn fragments(s: Seq<char>) -> Seq<Seq<char>> {
    if s.len() == 0 {
        seq![]
    } else {
        split_all(s)
    }
}

/// A fragment's key and value: the text around its first `=`, or the whole
/// fragment and the empty value.
pub open spec fn pair_of(frag: Seq<char>) -> (Seq<char>, Seq<char>) {
    match split_once(frag, '=') {
        Some(p) => p,
        None => (frag, Seq::empty()),
    }
}

/// The key-value pairs of a query string, in order.
pub open spec fn pairs(s: Seq<char>) -> Seq<(Seq<char>, Seq<char>)> {
    fragments(s).map_values(|f: Seq<char>| pair_of(f))
}

/// Whether `entries` holds an entry for `k`.
pub open spec fn has_key(entries: Seq<Entry>, k: Seq<char>) -> bool {
    exists|i: int| 0 <= i < entries.len() && (#[trigger] entries[i]).0 == k
}

/// The position of the entry for `k`.
pub open spec fn key_index(entries: Seq<Entry>, k: Seq<char>) -> int {
    choose|i: int| 0 <= i < entries.len() && (#[trigger] entries[i]).0 == k
}

/// The values recorded for `k`, if any.
pub open spec fn lookup(entries: Seq<Entry>, k: Seq<char>) -> Option<Seq<Seq<char>>> {
    if has_key(entries, k) {
        Some(entries[key_index(entries, k)].1)
    } else {
        None
    }
}

/// Records one pair: a new key gets an entry at the end, a known key gets the
/// value appended to its values.
pub open spec fn add_pair(entries: Seq<Entry>, p: (Seq<char>, Seq<char>)) -> Seq<Entry> {
    if has_key(entries, p.0) {
        let i = key_index(entries, p.0);
        entries.update(i, (p.0, entries[i].1.push(p.1)))
    } else {
        entries.push((p.0, seq![p.1]))
    }
}

/// The entries that a sequence of pairs yields, keys in order of first occurrence.
pub open spec fn group(ps: Seq<(Seq<char>, Seq<char>)>) -> Seq<Entry>
    decreases ps.len(),
{
    if ps.len() == 0 {
        Seq::empty()
    } else {
        add_pair(group(ps.drop_last()), ps.last())
    }
}

/// What a query string decodes to.
pub open spec fn decode(s: Seq<char>) -> Seq<Entry> {
    group(pairs(s))
}

/// Decoding one more fragment records its pair.
proof fn lemma_group_push(done: Seq<Seq<char>>, f: Seq<char>)
    ensures
        group(done.push(f).map_values(|g: Seq<char>| pair_of(g))) == add_pair(
            group(done.map_values(|g: Seq<char>| pair_of(g))),
            pair_of(f),
        ),
{
    let ps = done.push(f).map_values(|g: Seq<char>| pair_of(g));
    assert(ps.drop_last() =~= done.map_values(|g: Seq<char>| pair_of(g)));
    assert(ps.last() == pair_of(f));
}

/// Whether a pair has key `k`.
pub open spec fn pair_has_key(k: Seq<char>) -> spec_fn((Seq<char>, Seq<char>)) -> bool {
    |p: (Seq<char>, Seq<char>)| p.0 == k
}

/// The values that the pairs give for `k`, in order.
pub open spec fn values_for(ps: Seq<(Seq<char>, Seq<char>)>, k: Seq<char>) -> Seq<Seq<char>> {
    ps.filter(pair_has_key(k)).map_values(|p: (Seq<char>, Seq<char>)| p.1)
}

/// Grouping keeps keys unique, and a key's entry holds exactly the values of the
/// pairs with that key, in their order.
pub proof fn lemma_group_values(ps: Seq<(Seq<char>, Seq<char>)>, k: Seq<char>)
    ensures
        entries_wf(group(ps)),
        lookup(group(ps), k) == (if values_for(ps, k).len() == 0 {
            None
        } else {
            Some(values_for(ps, k))
        }),
    decreases ps.len(),
{
    let pred = pair_has_key(k);
    if ps.len() == 0 {
        reveal(Seq::filter);
        assert(values_for(ps, k) =~= Seq::empty());
    } else {
        let prev = ps.drop_last();
        let p = ps.last();
        let e = group(prev);
        lemma_group_values(prev, k);
        lemma_group_values(prev, p.0);
        assert(ps =~= prev.push(p));
        prev.lemma_filter_push(p, pred);
        let g = add_pair(e, p);
        assert(g == group(ps));
        if has_key(e, p.0) {
            let i = key_index(e, p.0);
            assert(forall|j: int| 0 <= j < g.len() ==> (#[trigger] g[j]).0 == e[j].0);
            assert(entries_wf(g));
            if has_key(e, k) {
                let j = key_index(e, k);
                assert(g[j].0 == k);
                assert(has_key(g, k));
                assert(key_index(g, k) == j);
            } else {
                assert(!has_key(g, k));
            }
            if p.0 == k {
                assert(values_for(ps, k) =~= values_for(prev, k).push(p.1));
            } else {
                assert(values_for(ps, k) =~= values_for(prev, k));
            }
        } else {
            assert(g[e.len() as int].0 == p.0);
            assert(entries_wf(g));
            if p.0 == k {
                assert(has_key(g, k));
                assert(key_index(g, k) == e.len());
                assert(values_for(prev, k).len() == 0);
                assert(values_for(ps, k) =~= seq![p.1]);
            } else {
                assert(values_for(ps, k) =~= values_for(prev, k));
                if has_key(e, k) {
                    let j = key_index(e, k);
                    assert(g[j].0 == k);
                    assert(key_index(g, k) == j);
                } else {
                    assert(!has_key(g, k));
                }
            }
        }
    }
}

/// Decoding collects, for each key, the values of its fragments in order: a key
/// is present exactly when some fragment has it.
pub proof fn lemma_decode_values(s: Seq<char>, k: Seq<char>)
    ensures
        lookup(decode(s), k) == (if values_for(pairs(s), k).len() == 0 {
            None
        } else {
            Some(values_for(pairs(s), k))
        }),
{
    lemma_group_values(pairs(s), k);
}

/// Keys occur once and every value has its shape.
pub open spec fn entries_wf(entries: Seq<Entry>) -> bool {
    &&& forall|i: int, j: int|
        0 <= i < j < entries.len() ==> (#[trigger] entries[i]).0 != (#[trigger] entries[j]).0
    &&& forall|i: int| 0 <= i < entries.len() ==> (#[trigger] entries[i]).1.len() >= 1
}

/// A decoded query string: each key with its value(s), keys in order of first
/// occurrence.
#[derive(Debug, PartialEq, Eq)]
pub struct QueryString<'buf> {
    data: Vec<(&'buf str, Value<'buf>)>,
}

/// The model of one stored entry.
pub open spec fn entry_view<'buf>(e: (&'buf str, Value<'buf>)) -> Entry {
    (e.0@, e.1.values())
}

impl<'buf> View for QueryString<'buf> {
    type V = Seq<Entry>;

    closed spec fn view(&self) -> Seq<Entry> {
        self.data@.map_values(|e: (&'buf str, Value<'buf>)| entry_view(e))
    }
}

impl<'buf> QueryString<'buf> {
    /// Keys occur once, and each value is `Single` exactly when its key occurred once.
    pub closed spec fn wf(&self) -> bool {
        &&& entries_wf(self@)
        &&& forall|i: int| 0 <= i < self.data@.len() ==> (#[trigger] self.data@[i]).1.wf()
    }

    /// Decodes a query string: each `&`-separated fragment gives a key and a value
    /// (split at its first `=`, or the whole fragment and the empty value), and a
    /// key that recurs collects its values in order. The empty string gives no
    /// entries.
    pub fn from(s: &'buf str) -> (r: QueryString<'buf>)
        ensures
            r.wf(),
            r@ == decode(s@),
    {
        let mut q = QueryString { data: Vec::new() };
        assert(q@ =~= Seq::<Entry>::empty());
        if s.is_empty() {
            return q;
        }
        let mut rest: &'buf str = s;
        let ghost mut done: Seq<Seq<char>> = seq![];
        assert(done.map_values(|f: Seq<char>| pair_of(f)) =~= Seq::empty());
        assert(done + split_all(rest@) =~= split_all(s@));
        loop
            invariant
                s@.len() > 0,
                q.wf(),
                q@ == group(done.map_values(|f: Seq<char>| pair_of(f))),
                done + split_all(rest@) == split_all(s@),
            decreases rest@.len(),
        {
            match split_at_char(rest, '&') {
                Some((frag, tail)) => {
                    proof {
                        assert(split_all(rest@) == seq![frag@] + split_all(tail@));
                        lemma_group_push(done, frag@);
                        assert(done.push(frag@) + split_all(tail@) =~= done + split_all(rest@));
                    }
                    q.add_fragment(frag);
                    proof {
                        done = done.push(frag@);
                    }
                    rest = tail;
                },
                None => {
                    proof {
                        assert(split_all(rest@) == seq![rest@]);
                        lemma_group_push(done, rest@);
                        assert(done.push(rest@) =~= done + split_all(rest@));
                    }
                    q.add_fragment(rest);
                    proof {
                        done = done.push(rest@);
                        assert(fragments(s@) == done);
                        assert(pairs(s@) =~= done.map_values(|f: Seq<char>| pair_of(f)));
                    }
                    return q;
                },
            }
        }
    }

    /// The value(s) recorded for `key`.
    pub fn get(&self, key: &str) -> (r: Option<&Value<'buf>>)
        requires
            self.wf(),
        ensures
            r matches Some(v) ==> lookup(self@, key@) == Some(v.values()) && v.wf(),
            r is None <==> lookup(self@, key@) is None,
    {
        let n = self.data.len();
        let mut j: usize = 0;
        while j < n
            invariant
                self.wf(),
                n == self.data@.len(),
                self@.len() == n,
                j <= n,
                forall|k: int| 0 <= k < j ==> (#[trigger] self.data@[k]).0@ != key@,
            decreases n - j,
        {
            if text_eq(self.data[j].0, key) {
                assert(self@[j as int].0 == key@);
                assert(has_key(self@, key@));
                assert(key_index(self@, key@) == j);
                assert(self.data@[j as int].1.wf());
                return Some(&self.data[j].1);
            }
            j = j + 1;
        }
        assert(!has_key(self@, key@));
        None
    }

    /// The number of distinct keys.
    pub fn len(&self) -> (r: usize)
        ensures
            r == self@.len(),
    {
        self.data.len()
    }

    /// Whether no key was recorded.
    pub fn is_empty(&self) -> (r: bool)
        ensures
            r == (self@.len() == 0),
    {
        self.data.len() == 0
    }

    /// Records one fragment.
    fn add_fragment(&mut self, frag: &'buf str)
        requires
            old(self).wf(),
        ensures
            final(self).wf(),
            final(self)@ == add_pair(old(self)@, pair_of(frag@)),
    {
        match split_at_char(frag, '=') {
            Some((key, val)) => self.add(key, val),
            None => {
                let empty: &'buf str = "";
                proof {
                    reveal_strlit("");
                }
                assert(empty@ =~= Seq::<char>::empty());
                self.add(frag, empty);
            },
        }
    }

    /// Records `val` under `key`.
    fn add(&mut self, key: &'buf str, val: &'buf str)
        requires
            old(self).wf(),
        ensures
            final(self).wf(),
            final(self)@ == add_pair(old(self)@, (key@, val@)),
    {
        let ghost old_view = self@;
        let n = self.data.len();
        let mut j: usize = 0;
        let mut found = false;
        while j < n && !found
            invariant
                n == self.data@.len(),
                j <= n,
                self@ == old_view,
                found ==> j < n && self.data@[j as int].0@ == key@,
                forall|k: int| 0 <= k < j ==> (#[trigger] self.data@[k]).0@ != key@,
            decreases n - j + (if found { 0int } else { 1int }),
        {
            if text_eq(self.data[j].0, key) {
                found = true;
            } else {
                j = j + 1;
            }
        }
        assert(self@.len() == n);
        if found {
            assert(self@[j as int].0 == key@);
            assert(has_key(self@, key@));
            let ghost i = key_index(self@, key@);
            assert(i == j);
            let ghost old_data = self.data@;
            let ghost old_vals = old_data[i].1.values();
            let entry = &mut self.data[j];
            match &mut entry.1 {
                Value::Multiple(v) => {
                    v.push(val);
                },
                Value::Single(prev) => {
                    let first: &'buf str = *prev;
                    entry.1 = Value::Multiple(vec![first, val]);
                },
            }
            assert(self.data@.len() == old_data.len());
            assert(forall|k: int| 0 <= k < n && k != i ==> self.data@[k] == old_data[k]);
            assert(self.data@[i].0@ == key@);
            assert(self.data@[i].1.values() =~= old_vals.push(val@));
            assert(self@ =~= add_pair(old_view, (key@, val@)));
        } else {
            assert(!has_key(self@, key@));
            self.data.push((key, Value::Single(val)));
            assert(self@ =~= add_pair(old_view, (key@, val@)));
        }
    }
}

} // verus!
