use vstd::prelude::*;

verus! {

/// Entries of a change set as plain values: (file, status).
pub type EntriesView = Seq<(Seq<char>, Seq<char>)>;

/// The files of `es`, in order.
pub open spec fn entry_keys(es: EntriesView) -> Seq<Seq<char>> {
    es.map_values(|e: (Seq<char>, Seq<char>)| e.0)
}

/// No file occurs twice in `es`.
pub open spec fn distinct_keys(es: EntriesView) -> bool {
    forall|i: int, j: int| 0 <= i < j < es.len() ==> es[i].0 != es[j].0
}

/// The status recorded for `key` in `es`.
pub open spec fn lookup(es: EntriesView, key: Seq<char>) -> Option<Seq<char>>
    decreases es.len(),
{
    if es.len() == 0 {
        None
    } else if es[0].0 == key {
        Some(es[0].1)
    } else {
        lookup(es.drop_first(), key)
    }
}

/// `es` after recording `value` for `key`: an entry already there for `key` takes the
/// new value in place, else the entry goes at the end.
pub open spec fn insert_entry(es: EntriesView, key: Seq<char>, value: Seq<char>) -> EntriesView {
    if entry_keys(es).contains(key) {
        es.map_values(
            |e: (Seq<char>, Seq<char>)|
                if e.0 == key {
                    (key, value)
                } else {
                    e
                },
        )
    } else {
        es.push((key, value))
    }
}

pub proof fn lemma_lookup_some(es: EntriesView, key: Seq<char>)
    ensures
        lookup(es, key) is Some <==> entry_keys(es).contains(key),
        distinct_keys(es) ==> forall|i: int|
            0 <= i < es.len() && es[i].0 == key ==> lookup(es, key) == Some(es[i].1),
    decreases es.len(),
{
    if es.len() > 0 {
        lemma_lookup_some(es.drop_first(), key);
        assert(entry_keys(es) =~= seq![es[0].0] + entry_keys(es.drop_first()));
        if es[0].0 == key {
            assert(entry_keys(es)[0] == key);
        } else if lookup(es, key) is Some {
            let j = choose|j: int| 0 <= j < entry_keys(es.drop_first()).len() && entry_keys(es.drop_first())[j] == key;
            assert(entry_keys(es)[j + 1] == key);
        }
        if entry_keys(es).contains(key) && es[0].0 != key {
            let i = choose|i: int| 0 <= i < entry_keys(es).len() && entry_keys(es)[i] == key;
            assert(entry_keys(es.drop_first())[i - 1] == key);
        }
        if distinct_keys(es) {
            assert(distinct_keys(es.drop_first())) by {
                assert forall|i: int, j: int|
                    0 <= i < j < es.drop_first().len() implies es.drop_first()[i].0
                    != es.drop_first()[j].0 by {
                    assert(es.drop_first()[i] == es[i + 1]);
                    assert(es.drop_first()[j] == es[j + 1]);
                }
            }
            assert forall|i: int|
                0 <= i < es.len() && es[i].0 == key implies lookup(es, key) == Some(es[i].1) by {
                if i > 0 {
                    assert(es.drop_first()[i - 1] == es[i]);
                }
            }
        }
    }
}

/// Reading back what was written: after recording `value` for `key`, the status of `key`
/// is `value` and every other file keeps its status.
pub proof fn lemma_insert_then_lookup(es: EntriesView, key: Seq<char>, value: Seq<char>, other: Seq<char>)
    requires
        distinct_keys(es),
    ensures
        lookup(insert_entry(es, key, value), key) == Some(value),
        other != key ==> lookup(insert_entry(es, key, value), other) == lookup(es, other),
        distinct_keys(insert_entry(es, key, value)),
{
    let r = insert_entry(es, key, value);
    lemma_lookup_some(es, other);
    if entry_keys(es).contains(key) {
        let i = choose|i: int| 0 <= i < entry_keys(es).len() && entry_keys(es)[i] == key;
        assert(r[i] == (key, value));
        assert(distinct_keys(r)) by {
            assert forall|a: int, b: int| 0 <= a < b < r.len() implies r[a].0 != r[b].0 by {
                assert(r[a].0 == es[a].0 && r[b].0 == es[b].0);
            }
        }
        lemma_lookup_some(r, key);
        lemma_lookup_some(r, other);
        if other != key {
            if entry_keys(es).contains(other) {
                let j = choose|j: int| 0 <= j < entry_keys(es).len() && entry_keys(es)[j] == other;
                assert(r[j] == es[j]);
                assert(entry_keys(r)[j] == other);
            } else {
                if entry_keys(r).contains(other) {
                    let j = choose|j: int| 0 <= j < entry_keys(r).len() && entry_keys(r)[j] == other;
                    assert(entry_keys(es)[j] == other);
                }
            }
        }
    } else {
        assert(distinct_keys(r)) by {
            assert forall|a: int, b: int| 0 <= a < b < r.len() implies r[a].0 != r[b].0 by {
                if b == es.len() {
                    assert(entry_keys(es)[a] == es[a].0);
                }
            }
        }
        lemma_lookup_some(r, key);
        assert(r[es.len() as int] == (key, value));
        lemma_lookup_some(r, other);
        if other != key {
            if entry_keys(es).contains(other) {
                let j = choose|j: int| 0 <= j < entry_keys(es).len() && entry_keys(es)[j] == other;
                assert(r[j] == es[j]);
                assert(entry_keys(r)[j] == other);
            } else {
                if entry_keys(r).contains(other) {
                    let j = choose|j: int| 0 <= j < entry_keys(r).len() && entry_keys(r)[j] == other;
                    assert(entry_keys(es)[j] == other);
                }
            }
        }
    }
}

/// The changed files of a revision, each with its status (`added`, `modified`,
/// `deleted`). No file occurs twice.
pub struct ChangeSet {
    entries: Vec<(String, String)>,
}

impl View for ChangeSet {
    type V = EntriesView;

    closed spec fn view(&self) -> EntriesView {
        self.entries@.map_values(|e: (String, String)| (e.0@, e.1@))
    }
}

impl ChangeSet {
    #[verifier::type_invariant]
    spec fn keys_are_distinct(self) -> bool {
        distinct_keys(self@)
    }

    /// An empty change set.
    pub fn new() -> (r: ChangeSet)
        ensures
            r@ == Seq::<(Seq<char>, Seq<char>)>::empty(),
            distinct_keys(r@),
    {
        let r = ChangeSet { entries: Vec::new() };
        assert(r@ =~= Seq::<(Seq<char>, Seq<char>)>::empty());
        r
    }

    /// The number of files.
    pub fn len(&self) -> (n: usize)
        ensures
            n == self@.len(),
            distinct_keys(self@),
    {
        proof {
            use_type_invariant(self);
        }
        self.entries.len()
    }

    /// Whether there is no file.
    pub fn is_empty(&self) -> (b: bool)
        ensures
            b == (self@.len() == 0),
    {
        self.entries.len() == 0
    }

    /// The file of the `i`-th entry.
    pub fn key_at(&self, i: usize) -> (k: &String)
        requires
            i < self@.len(),
        ensures
            k@ == self@[i as int].0,
    {
        &self.entries[i].0
    }

    /// The status of the `i`-th entry.
    pub fn value_at(&self, i: usize) -> (v: &String)
        requires
            i < self@.len(),
        ensures
            v@ == self@[i as int].1,
    {
        &self.entries[i].1
    }

    /// The position of `key`, if it is there.
    fn position(&self, key: &String) -> (r: Option<usize>)
        ensures
            match r {
                Some(i) => i < self@.len() && self@[i as int].0 == key@,
                None => !entry_keys(self@).contains(key@),
            },
    {
        let mut i: usize = 0;
        while i < self.entries.len()
            invariant
                i <= self.entries.len(),
                forall|j: int| 0 <= j < i ==> self@[j].0 != key@,
            decreases self.entries.len() - i,
        {
            if self.entries[i].0 == *key {
                return Some(i);
            }
            i = i + 1;
        }
        assert forall|j: int| 0 <= j < entry_keys(self@).len() implies entry_keys(self@)[j]
            != key@ by {
            assert(self@[j].0 != key@);
        }
        None
    }

    /// The status recorded for `key`.
    pub fn get(&self, key: &String) -> (r: Option<&String>)
        ensures
            match r {
                Some(v) => lookup(self@, key@) == Some(v@),
                None => lookup(self@, key@) is None,
            },
    {
        proof {
            use_type_invariant(self);
            lemma_lookup_some(self@, key@);
        }
        match self.position(key) {
            Some(i) => Some(&self.entries[i].1),
            None => None,
        }
    }

    /// Whether `key` has an entry.
    pub fn contains_key(&self, key: &String) -> (b: bool)
        ensures
            b == entry_keys(self@).contains(key@),
    {
        match self.position(key) {
            Some(i) => {
                assert(entry_keys(self@)[i as int] == key@);
                true
            },
            None => false,
        }
    }

    /// Records `value` for `key` (`HashMap::insert`).
    pub fn insert(&mut self, key: String, value: String)
        ensures
            final(self)@ == insert_entry(old(self)@, key@, value@),
            distinct_keys(final(self)@),
    {
        proof {
            use_type_invariant(&*self);
        }
        let ghost old_view = self@;
        match self.position(&key) {
            Some(i) => {
                let ghost k = key@;
                let ghost v = value@;
                let mut entries = Vec::new();
                std::mem::swap(&mut entries, &mut self.entries);
                entries.set(i, (key, value));
                proof {
                    assert(entry_keys(old_view)[i as int] == k);
                    let nv = entries@.map_values(|e: (String, String)| (e.0@, e.1@));
                    assert forall|j: int| 0 <= j < old_view.len() implies #[trigger] nv[j] == (if old_view[j].0 == k { (k, v) } else { old_view[j] }) by {
                        if j != i {
                            assert(old_view[j].0 != old_view[i as int].0);
                        }
                    }
                    assert(nv =~= insert_entry(old_view, k, v));
                    assert forall|a: int, b: int| 0 <= a < b < nv.len() implies nv[a].0 != nv[b].0 by {
                        assert(nv[a].0 == old_view[a].0);
                        assert(nv[b].0 == old_view[b].0);
                    }
                }
                self.entries = entries;
            },
            None => {
                let ghost k = key@;
                let mut entries = Vec::new();
                std::mem::swap(&mut entries, &mut self.entries);
                entries.push((key, value));
                proof {
                    let nv = entries@.map_values(|e: (String, String)| (e.0@, e.1@));
                    assert(nv =~= insert_entry(old_view, k, value@));
                    assert forall|a: int, b: int| 0 <= a < b < nv.len() implies nv[a].0 != nv[b].0 by {
                        if b == old_view.len() {
                            assert(entry_keys(old_view)[a] == old_view[a].0);
                        }
                    }
                }
                self.entries = entries;
            },
        }
    }

    /// The files, in order.
    pub fn keys(&self) -> (r: Vec<String>)
        ensures
            r@.map_values(|k: String| k@) == entry_keys(self@),
    {
        let mut r: Vec<String> = Vec::new();
        let mut i: usize = 0;
        while i < self.entries.len()
            invariant
                i <= self.entries.len(),
                r@.map_values(|k: String| k@) == entry_keys(self@).take(i as int),
            decreases self.entries.len() - i,
        {
            let ghost before = r@.map_values(|k: String| k@);
            r.push(self.entries[i].0.clone());
            assert(r@.map_values(|k: String| k@) =~= before.push(self@[i as int].0));
            i = i + 1;
            assert(r@.map_values(|k: String| k@) =~= entry_keys(self@).take(i as int));
        }
        assert(entry_keys(self@).take(i as int) =~= entry_keys(self@));
        r
    }
}

} // verus!
