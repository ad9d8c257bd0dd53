//! A table keyed by text, kept in ascending key order, as a `BTreeMap<String, V>`
//! keeps its entries: one entry per key, walked from the smallest key up.

use vstd::prelude::*;

verus! {

/// Lexicographic order on characters, which is the order of `str`: `a < b`.
pub open spec fn text_lt(a: Seq<char>, b: Seq<char>) -> bool
    decreases a.len(),
{
    if a.len() == 0 {
        b.len() > 0
    } else if b.len() == 0 {
        false
    } else if a[0] != b[0] {
        a[0] < b[0]
    } else {
        text_lt(a.drop_first(), b.drop_first())
    }
}

pub proof fn lemma_text_lt_irreflexive(a: Seq<char>)
    ensures
        !text_lt(a, a),
    decreases a.len(),
{
    if a.len() > 0 {
        lemma_text_lt_irreflexive(a.drop_first());
    }
}

pub proof fn lemma_text_lt_total(a: Seq<char>, b: Seq<char>)
    ensures
        a == b || text_lt(a, b) || text_lt(b, a),
        !(text_lt(a, b) && text_lt(b, a)),
    decreases a.len(),
{
    if a.len() > 0 && b.len() > 0 {
        lemma_text_lt_total(a.drop_first(), b.drop_first());
        if a[0] == b[0] && a.drop_first() == b.drop_first() {
            assert(a == seq![a[0]] + a.drop_first());
            assert(b == seq![b[0]] + b.drop_first());
        }
    } else if a.len() == 0 && b.len() == 0 {
        assert(a == b);
    }
}

pub proof fn lemma_text_lt_transitive(a: Seq<char>, b: Seq<char>, c: Seq<char>)
    requires
        text_lt(a, b),
        text_lt(b, c),
    ensures
        text_lt(a, c),
    decreases a.len(),
{
    if a.len() > 0 && b.len() > 0 && c.len() > 0 {
        if a[0] == b[0] && b[0] == c[0] {
            lemma_text_lt_transitive(a.drop_first(), b.drop_first(), c.drop_first());
        }
    }
}

/// `a < b` for texts.
pub fn text_less(a: &Vec<char>, b: &Vec<char>) -> (r: bool)
    ensures
        r == text_lt(a@, b@),
{
    let mut i: usize = 0;
    proof {
        assert(a@.skip(0) == a@);
        assert(b@.skip(0) == b@);
    }
    while i < a.len() && i < b.len() && a[i] == b[i]
        invariant
            i <= a@.len(),
            i <= b@.len(),
            text_lt(a@, b@) == text_lt(a@.skip(i as int), b@.skip(i as int)),
        decreases a@.len() - i,
    {
        proof {
            assert(a@.skip(i as int).drop_first() == a@.skip(i + 1));
            assert(b@.skip(i as int).drop_first() == b@.skip(i + 1));
        }
        i = i + 1;
    }
    if i == a.len() {
        i < b.len()
    } else if i == b.len() {
        false
    } else {
        a[i] < b[i]
    }
}

/// Keys in strictly ascending order.
pub open spec fn sorted<V>(e: Seq<(Seq<char>, V)>) -> bool {
    forall|i: int, j: int| 0 <= i < j < e.len() ==> text_lt(#[trigger] e[i].0, #[trigger] e[j].0)
}

/// The value stored under `k`.
pub open spec fn lookup<V>(e: Seq<(Seq<char>, V)>, k: Seq<char>) -> Option<V>
    decreases e.len(),
{
    if e.len() == 0 {
        None
    } else if e[0].0 == k {
        Some(e[0].1)
    } else {
        lookup(e.drop_first(), k)
    }
}

/// The entries after storing `v` under `k` in a sorted table: the value of an
/// existing entry is replaced, a new key goes where its order puts it.
pub open spec fn upsert<V>(e: Seq<(Seq<char>, V)>, k: Seq<char>, v: V) -> Seq<(Seq<char>, V)>
    decreases e.len(),
{
    if e.len() == 0 {
        seq![(k, v)]
    } else if e[0].0 == k {
        e.update(0, (k, v))
    } else if text_lt(k, e[0].0) {
        seq![(k, v)] + e
    } else {
        seq![e[0]] + upsert(e.drop_first(), k, v)
    }
}

proof fn lemma_lookup_found<V>(e: Seq<(Seq<char>, V)>, k: Seq<char>, p: int)
    requires
        sorted(e),
        0 <= p < e.len(),
        e[p].0 == k,
    ensures
        lookup(e, k) == Some(e[p].1),
        forall|v: V| upsert(e, k, v) == e.update(p, (k, v)),
    decreases p,
{
    if p > 0 {
        let t = e.drop_first();
        assert(sorted(t));
        assert(text_lt(e[0].0, e[p].0));
        lemma_text_lt_irreflexive(k);
        lemma_lookup_found(t, k, p - 1);
        assert forall|v: V| upsert(e, k, v) == e.update(p, (k, v)) by {
            lemma_text_lt_total(k, e[0].0);
            assert(upsert(e, k, v) == seq![e[0]] + upsert(t, k, v));
            assert(seq![e[0]] + t.update(p - 1, (k, v)) =~= e.update(p, (k, v)));
        }
    }
}

proof fn lemma_lookup_absent<V>(e: Seq<(Seq<char>, V)>, k: Seq<char>, p: int)
    requires
        sorted(e),
        0 <= p <= e.len(),
        forall|j: int| 0 <= j < p ==> text_lt(#[trigger] e[j].0, k),
        p == e.len() || text_lt(k, e[p].0),
    ensures
        lookup(e, k) is None,
        forall|v: V| upsert(e, k, v) == e.insert(p, (k, v)),
    decreases p,
{
    if e.len() == 0 {
        assert forall|v: V| upsert(e, k, v) == e.insert(p, (k, v)) by {
            assert(seq![(k, v)] =~= e.insert(p, (k, v)));
        }
    } else if p == 0 {
        assert forall|j: int| 0 <= j < e.len() implies e[j].0 != k by {
            if j > 0 {
                assert(text_lt(e[0].0, e[j].0));
                lemma_text_lt_transitive(k, e[0].0, e[j].0);
            }
            lemma_text_lt_irreflexive(k);
        }
        lemma_lookup_missing(e, k);
        assert forall|v: V| upsert(e, k, v) == e.insert(p, (k, v)) by {
            lemma_text_lt_irreflexive(k);
            assert(seq![(k, v)] + e =~= e.insert(p, (k, v)));
        }
    } else {
        let t = e.drop_first();
        assert(sorted(t));
        lemma_text_lt_irreflexive(k);
        assert(text_lt(e[0].0, k));
        lemma_text_lt_total(e[0].0, k);
        lemma_lookup_absent(t, k, p - 1);
        assert forall|v: V| upsert(e, k, v) == e.insert(p, (k, v)) by {
            assert(upsert(e, k, v) == seq![e[0]] + upsert(t, k, v));
            assert(seq![e[0]] + t.insert(p - 1, (k, v)) =~= e.insert(p, (k, v)));
        }
    }
}

proof fn lemma_lookup_missing<V>(e: Seq<(Seq<char>, V)>, k: Seq<char>)
    requires
        forall|j: int| 0 <= j < e.len() ==> (#[trigger] e[j]).0 != k,
    ensures
        lookup(e, k) is None,
    decreases e.len(),
{
    if e.len() > 0 {
        lemma_lookup_missing(e.drop_first(), k);
    }
}

/// Storing under a key keeps the keys in order.
pub proof fn lemma_upsert_sorted<V>(e: Seq<(Seq<char>, V)>, k: Seq<char>, v: V)
    requires
        sorted(e),
    ensures
        sorted(upsert(e, k, v)),
    decreases e.len(),
{
    if e.len() == 0 {
    } else if e[0].0 == k {
        let r = e.update(0, (k, v));
        assert(sorted(r));
    } else if text_lt(k, e[0].0) {
        let r = seq![(k, v)] + e;
        assert forall|i: int, j: int| 0 <= i < j < r.len() implies text_lt(
            #[trigger] r[i].0,
            #[trigger] r[j].0,
        ) by {
            if i == 0 && j > 1 {
                lemma_text_lt_transitive(k, e[0].0, e[j - 1].0);
            }
        }
    } else {
        let t = e.drop_first();
        assert(sorted(t));
        lemma_upsert_sorted(t, k, v);
        let u = upsert(t, k, v);
        let r = seq![e[0]] + u;
        lemma_text_lt_total(k, e[0].0);
        assert forall|i: int, j: int| 0 <= i < j < r.len() implies text_lt(
            #[trigger] r[i].0,
            #[trigger] r[j].0,
        ) by {
            if i == 0 {
                lemma_upsert_keys(t, k, v, j - 1);
                let x = u[j - 1].0;
                if x != k {
                    let m = choose|m: int| 0 <= m < t.len() && t[m].0 == x;
                    assert(e[m + 1].0 == x);
                }
            }
        }
    }
}

/// Every key of the result was stored before, or is the new key.
pub proof fn lemma_upsert_keys<V>(e: Seq<(Seq<char>, V)>, k: Seq<char>, v: V, i: int)
    requires
        0 <= i < upsert(e, k, v).len(),
    ensures
        upsert(e, k, v)[i].0 == k || exists|m: int| 0 <= m < e.len() && e[m].0 == upsert(e, k, v)[i].0,
    decreases e.len(),
{
    if e.len() == 0 {
    } else if e[0].0 == k {
        if i != 0 {
            assert(e[i].0 == upsert(e, k, v)[i].0);
        }
    } else if text_lt(k, e[0].0) {
        if i != 0 {
            assert(e[i - 1].0 == upsert(e, k, v)[i].0);
        }
    } else {
        if i == 0 {
            assert(e[0].0 == upsert(e, k, v)[i].0);
        } else {
            let t = e.drop_first();
            lemma_upsert_keys(t, k, v, i - 1);
            if upsert(t, k, v)[i - 1].0 != k {
                let m = choose|m: int| 0 <= m < t.len() && t[m].0 == upsert(t, k, v)[i - 1].0;
                assert(e[m + 1].0 == upsert(e, k, v)[i].0);
            }
        }
    }
}

/// The entries with `f` applied to every value.
pub open spec fn map_entries<V, W>(t: Seq<(Seq<char>, V)>, f: spec_fn(V) -> W) -> Seq<(Seq<char>, W)> {
    t.map_values(|e: (Seq<char>, V)| (e.0, f(e.1)))
}

pub proof fn lemma_map_lookup<V, W>(t: Seq<(Seq<char>, V)>, k: Seq<char>, f: spec_fn(V) -> W)
    ensures
        lookup(map_entries(t, f), k) == match lookup(t, k) {
            Some(v) => Some(f(v)),
            None => None,
        },
    decreases t.len(),
{
    if t.len() > 0 {
        assert(map_entries(t, f).drop_first() == map_entries(t.drop_first(), f));
        lemma_map_lookup(t.drop_first(), k, f);
    }
}

pub proof fn lemma_map_upsert<V, W>(t: Seq<(Seq<char>, V)>, k: Seq<char>, v: V, f: spec_fn(V) -> W)
    ensures
        upsert(map_entries(t, f), k, f(v)) == map_entries(upsert(t, k, v), f),
    decreases t.len(),
{
    let m = map_entries(t, f);
    if t.len() == 0 {
        assert(upsert(m, k, f(v)) =~= map_entries(upsert(t, k, v), f));
    } else if t[0].0 == k {
        assert(upsert(m, k, f(v)) =~= map_entries(upsert(t, k, v), f));
    } else if text_lt(k, t[0].0) {
        assert(upsert(m, k, f(v)) =~= map_entries(upsert(t, k, v), f));
    } else {
        assert(m.drop_first() == map_entries(t.drop_first(), f));
        lemma_map_upsert(t.drop_first(), k, v, f);
        assert(upsert(m, k, f(v)) =~= map_entries(upsert(t, k, v), f));
    }
}

/// Entries kept in ascending order of their text keys.
///
/// This stands where a `BTreeMap<String, V>` would: vstd specifies a `BTreeMap`
/// for keys whose order it knows, and with a `String` key it states neither which
/// entry a lookup finds nor in which order the entries come out. Here the order
/// is the table's invariant, and every operation is stated over `lookup` and
/// `upsert`.
pub struct KeyedTable<V> {
    entries: Vec<(Vec<char>, V)>,
}

impl<V> View for KeyedTable<V> {
    type V = Seq<(Seq<char>, V)>;

    /// The entries, keys as characters, in ascending order of key.
    closed spec fn view(&self) -> Seq<(Seq<char>, V)> {
        self.entries@.map_values(|e: (Vec<char>, V)| (e.0@, e.1))
    }
}

impl<V> KeyedTable<V> {
    /// The keys are strictly ascending, so each occurs once.
    #[verifier::type_invariant]
    closed spec fn ordered(self) -> bool {
        sorted(self@)
    }

    pub fn new() -> (t: Self)
        ensures
            t@ == Seq::<(Seq<char>, V)>::empty(),
    {
        let t = KeyedTable { entries: Vec::new() };
        proof {
            assert(t@ =~= Seq::<(Seq<char>, V)>::empty());
        }
        t
    }

    pub fn len(&self) -> (r: usize)
        ensures
            r == self@.len(),
    {
        self.entries.len()
    }

    /// Where `key` is, or where it would go.
    fn position(&self, key: &Vec<char>) -> (r: (usize, bool))
        ensures
            r.0 <= self@.len(),
            r.1 ==> r.0 < self@.len() && self@[r.0 as int].0 == key@ && lookup(self@, key@) == Some(
                self@[r.0 as int].1,
            ) && forall|v: V| upsert(self@, key@, v) == self@.update(r.0 as int, (key@, v)),
            !r.1 ==> lookup(self@, key@) is None && forall|v: V|
                upsert(self@, key@, v) == self@.insert(r.0 as int, (key@, v)),
    {
        proof {
            use_type_invariant(self);
        }
        let ghost e = self@;
        let mut i: usize = 0;
        while i < self.entries.len()
            invariant
                e == self@,
                sorted(e),
                i <= e.len(),
                forall|j: int| 0 <= j < i ==> text_lt(#[trigger] e[j].0, key@),
            decreases e.len() - i,
        {
            let k = &self.entries[i].0;
            proof {
                assert(e[i as int].0 == k@);
            }
            if text_less(k, key) {
                i = i + 1;
            } else {
                proof {
                    lemma_text_lt_total(k@, key@);
                }
                if text_less(key, k) {
                    proof {
                        lemma_lookup_absent(e, key@, i as int);
                    }
                    return (i, false);
                } else {
                    proof {
                        lemma_lookup_found(e, key@, i as int);
                    }
                    return (i, true);
                }
            }
        }
        proof {
            lemma_lookup_absent(e, key@, i as int);
        }
        (i, false)
    }

    /// The value stored under `key`, if any.
    pub fn get(&self, key: &Vec<char>) -> (r: Option<&V>)
        ensures
            match r {
                Some(v) => lookup(self@, key@) == Some(*v),
                None => lookup(self@, key@) is None,
            },
    {
        let (i, found) = self.position(key);
        if found {
            Some(&self.entries[i].1)
        } else {
            None
        }
    }

    /// Stores `v` under `key`: the value of an existing entry is replaced, a new key
    /// goes where its order puts it.
    pub fn set(&mut self, key: Vec<char>, v: V)
        ensures
            final(self)@ == upsert(old(self)@, key@, v),
    {
        proof {
            use_type_invariant(&*self);
        }
        let ghost t = self@;
        let ghost kv = key@;
        let (i, found) = self.position(&key);
        let mut entries: Vec<(Vec<char>, V)> = Vec::new();
        std::mem::swap(&mut entries, &mut self.entries);
        if found {
            let _ = entries.remove(i);
        }
        entries.insert(i, (key, v));
        proof {
            let u = entries@.map_values(|e: (Vec<char>, V)| (e.0@, e.1));
            if found {
                assert(u =~= t.update(i as int, (kv, v)));
            } else {
                assert(u =~= t.insert(i as int, (kv, v)));
            }
            lemma_upsert_sorted(t, kv, v);
        }
        self.entries = entries;
    }

    /// The values, in ascending order of their keys.
    pub fn into_values(self) -> (r: Vec<V>)
        ensures
            r@ == self@.map_values(|e: (Seq<char>, V)| e.1),
    {
        let ghost e = self@;
        let mut entries = self.entries;
        let mut out: Vec<V> = Vec::new();
        let mut rest: Vec<(Vec<char>, V)> = Vec::new();
        // Take the entries off the back, then put the values back in order.
        while entries.len() > 0
            invariant
                e.len() == entries@.len() + rest@.len(),
                forall|j: int|
                    0 <= j < entries@.len() ==> (#[trigger] entries@[j]).1 == e[j].1,
                forall|j: int|
                    0 <= j < rest@.len() ==> (#[trigger] rest@[j]).1 == e[e.len() - 1 - j].1,
            decreases entries@.len(),
        {
            let x = entries.pop().unwrap();
            rest.push(x);
        }
        while rest.len() > 0
            invariant
                e.len() == out@.len() + rest@.len(),
                forall|j: int|
                    0 <= j < rest@.len() ==> (#[trigger] rest@[j]).1 == e[e.len() - 1 - j].1,
                forall|j: int| 0 <= j < out@.len() ==> (#[trigger] out@[j]) == e[j].1,
            decreases rest@.len(),
        {
            let x = rest.pop().unwrap();
            out.push(x.1);
        }
        proof {
            assert(out@ =~= e.map_values(|x: (Seq<char>, V)| x.1));
        }
        out
    }
}

} // verus!
