//! Objects: header-keyed mappings built from one record.
use vstd::prelude::*;

verus! {

/// A key/value pair of text.
pub type Entry = (Seq<char>, Seq<char>);

/// Each key occurs at most once.
pub open spec fn keys_unique(es: Seq<Entry>) -> bool {
    forall|i: int, j: int|
        0 <= i < es.len() && 0 <= j < es.len() && #[trigger] es[i].0 == #[trigger] es[j].0 ==> i
            == j
}

/// The set of keys of an entry sequence.
pub open spec fn key_set(es: Seq<Entry>) -> Set<Seq<char>> {
    Set::new(|k: Seq<char>| exists|i: int| 0 <= i < es.len() && #[trigger] es[i].0 == k)
}

/// Sets `k` to `v`: an existing entry for `k` keeps its place and takes the
/// new value; otherwise the entry is appended.
pub open spec fn put_entry(es: Seq<Entry>, k: Seq<char>, v: Seq<char>) -> Seq<Entry> {
    if exists|i: int| 0 <= i < es.len() && #[trigger] es[i].0 == k {
        let i = choose|i: int| 0 <= i < es.len() && #[trigger] es[i].0 == k;
        es.update(i, (k, v))
    } else {
        es.push((k, v))
    }
}

/// The entries built from the first `n` header fields paired with the first
/// `n` cells, in order; a repeated field keeps its first place and its last
/// value.
pub open spec fn entries_upto(header: Seq<Seq<char>>, cells: Seq<Seq<char>>, n: nat) -> Seq<
    Entry,
>
    decreases n,
{
    if n == 0 {
        Seq::empty()
    } else {
        put_entry(
            entries_upto(header, cells, (n - 1) as nat),
            header[n - 1],
            cells[n - 1],
        )
    }
}

/// The entries of the object that pairs `header` with `cells` positionally.
pub open spec fn entries_of(header: Seq<Seq<char>>, cells: Seq<Seq<char>>) -> Seq<Entry> {
    entries_upto(header, cells, header.len())
}

pub proof fn lemma_put_entry(es: Seq<Entry>, k: Seq<char>, v: Seq<char>)
    requires
        keys_unique(es),
    ensures
        keys_unique(put_entry(es, k, v)),
        key_set(put_entry(es, k, v)) == key_set(es).insert(k),
{
    let r = put_entry(es, k, v);
    if exists|i: int| 0 <= i < es.len() && #[trigger] es[i].0 == k {
        let i = choose|i: int| 0 <= i < es.len() && #[trigger] es[i].0 == k;
        assert forall|x: Seq<char>| key_set(r).contains(x) implies key_set(es).insert(k).contains(
            x,
        ) by {
            let j = choose|j: int| 0 <= j < r.len() && #[trigger] r[j].0 == x;
            if j != i {
                assert(es[j].0 == x);
            }
        }
        assert forall|x: Seq<char>| key_set(es).insert(k).contains(x) implies key_set(r).contains(
            x,
        ) by {
            if x == k {
                assert(r[i].0 == x);
            } else {
                let j = choose|j: int| 0 <= j < es.len() && #[trigger] es[j].0 == x;
                assert(r[j].0 == x);
            }
        }
        assert(key_set(r) =~= key_set(es).insert(k));
    } else {
        assert forall|x: Seq<char>| key_set(r).contains(x) implies key_set(es).insert(k).contains(
            x,
        ) by {
            let j = choose|j: int| 0 <= j < r.len() && #[trigger] r[j].0 == x;
            if j < es.len() {
                assert(es[j].0 == x);
            }
        }
        assert forall|x: Seq<char>| key_set(es).insert(k).contains(x) implies key_set(r).contains(
            x,
        ) by {
            if x == k {
                assert(r[es.len() as int].0 == x);
            } else {
                let j = choose|j: int| 0 <= j < es.len() && #[trigger] es[j].0 == x;
                assert(r[j].0 == x);
            }
        }
        assert(key_set(r) =~= key_set(es).insert(k));
    }
}

/// The keys of the first `n` pairs are exactly the first `n` header fields,
/// each once.
pub proof fn lemma_entries_upto(header: Seq<Seq<char>>, cells: Seq<Seq<char>>, n: nat)
    requires
        n <= header.len(),
    ensures
        keys_unique(entries_upto(header, cells, n)),
        key_set(entries_upto(header, cells, n)) == header.take(n as int).to_set(),
    decreases n,
{
    if n == 0 {
        assert(key_set(Seq::<Entry>::empty()) =~= Set::empty());
        assert(header.take(0).to_set() =~= Set::empty());
    } else {
        lemma_entries_upto(header, cells, (n - 1) as nat);
        lemma_put_entry(entries_upto(header, cells, (n - 1) as nat), header[n - 1], cells[n - 1]);
        let t = header.take(n as int);
        assert(t =~= header.take(n - 1).push(header[n - 1]));
        header.take(n - 1).lemma_push_to_set_commute(header[n - 1]);
    }
}

/// An object: an ordered mapping from field name to cell text, keys unique.
pub struct Object {
    pub(crate) entries: Vec<(String, String)>,
}

impl View for Object {
    type V = Seq<Entry>;

    closed spec fn view(&self) -> Seq<Entry> {
        self.entries@.map_values(|e: (String, String)| (e.0@, e.1@))
    }
}

impl Object {
    pub open spec fn wf(&self) -> bool {
        keys_unique(self@)
    }

    /// The object with no entries.
    pub fn new() -> (r: Object)
        ensures
            r@ == Seq::<Entry>::empty(),
            r.wf(),
    {
        Object { entries: Vec::new() }
    }

    /// Sets `key` to `value`, the last value given for a key winning.
    pub fn put(&mut self, key: String, value: String)
        requires
            old(self).wf(),
        ensures
            final(self).wf(),
            final(self)@ == put_entry(old(self)@, key@, value@),
    {
        proof {
            lemma_put_entry(self@, key@, value@);
        }
        let n = self.entries.len();
        let mut i: usize = 0;
        while i < n
            invariant
                n == self.entries@.len(),
                self@ == old(self)@,
                keys_unique(old(self)@),
                keys_unique(put_entry(old(self)@, key@, value@)),
                i <= n,
                forall|j: int| 0 <= j < i ==> #[trigger] self@[j].0 != key@,
            decreases n - i,
        {
            if self.entries[i].0 == key {
                assert(self@[i as int].0 == key@);
                proof {
                    let c = choose|c: int| 0 <= c < old(self)@.len() && #[trigger] old(self)@[c].0 == key@;
                    assert(old(self)@[c].0 == old(self)@[i as int].0);
                }
                self.entries.set(i, (key, value));
                assert(self@ =~= old(self)@.update(i as int, (key@, value@)));
                return;
            }
            i = i + 1;
        }
        self.entries.push((key, value));
        assert(self@ =~= old(self)@.push((key@, value@)));
    }

    /// Pairs `header` with `cells` positionally.
    pub fn from_record(header: &Vec<String>, cells: &Vec<String>) -> (r: Object)
        requires
            header@.len() == cells@.len(),
        ensures
            r.wf(),
            r@ == entries_of(header.deep_view(), cells.deep_view()),
    {
        let mut obj = Object::new();
        let mut i: usize = 0;
        while i < header.len()
            invariant
                i <= header@.len() == cells@.len(),
                obj.wf(),
                obj@ == entries_upto(header.deep_view(), cells.deep_view(), i as nat),
            decreases header@.len() - i,
        {
            obj.put(header[i].clone(), cells[i].clone());
            i = i + 1;
        }
        obj
    }

    /// The entries in order.
    pub fn entries(&self) -> (r: &Vec<(String, String)>)
        ensures
            r@.map_values(|e: (String, String)| (e.0@, e.1@)) == self@,
    {
        &self.entries
    }
}

} // verus!
