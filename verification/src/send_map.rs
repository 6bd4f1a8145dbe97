//! The files to send, by recipient: a finite map from recipient name to the
//! list of paths given for it, where a later entry for the same recipient
//! replaces the earlier one.
use vstd::prelude::*;

verus! {

/// Recipients and the paths to send to each of them.
#[derive(Debug)]
pub struct SendMap {
    entries: Vec<(String, Vec<String>)>,
}

/// The map that a list of entries with distinct keys stands for.
pub open spec fn entries_map(es: Seq<(String, Vec<String>)>) -> Map<Seq<char>, Seq<Seq<char>>>
    decreases es.len(),
{
    if es.len() == 0 {
        Map::empty()
    } else {
        entries_map(es.drop_last()).insert(es.last().0@, es.last().1.deep_view())
    }
}

/// No recipient occurs twice.
pub open spec fn keys_distinct(es: Seq<(String, Vec<String>)>) -> bool {
    forall|i: int, j: int| 0 <= i < j < es.len() ==> #[trigger] es[i].0@ != #[trigger] es[j].0@
}

/// What a list of entries with distinct keys maps each key to.
proof fn lemma_entries_map(es: Seq<(String, Vec<String>)>)
    requires
        keys_distinct(es),
    ensures
        forall|k: Seq<char>|
            #![trigger entries_map(es).dom().contains(k)]
            entries_map(es).dom().contains(k) <==> exists|i: int| 0 <= i < es.len() && es[i].0@ == k,
        forall|i: int|
            #![trigger es[i]]
            0 <= i < es.len() ==> entries_map(es).dom().contains(es[i].0@) && entries_map(es)[es[i].0@]
                == es[i].1.deep_view(),
    decreases es.len(),
{
    if es.len() > 0 {
        let init = es.drop_last();
        assert(keys_distinct(init)) by {
            assert forall|i: int, j: int| 0 <= i < j < init.len() implies #[trigger] init[i].0@
                != #[trigger] init[j].0@ by {
                assert(init[i] == es[i] && init[j] == es[j]);
            }
        }
        lemma_entries_map(init);
        let m = entries_map(es);
        let last = es.last();
        assert forall|k: Seq<char>| #[trigger]
            m.dom().contains(k) <==> exists|i: int| 0 <= i < es.len() && es[i].0@ == k by {
            if m.dom().contains(k) {
                if k == last.0@ {
                    assert(es[es.len() - 1].0@ == k);
                } else {
                    assert(entries_map(init).dom().contains(k));
                    let i = choose|i: int| 0 <= i < init.len() && init[i].0@ == k;
                    assert(init[i] == es[i]);
                    assert(es[i].0@ == k);
                }
            }
            if exists|i: int| 0 <= i < es.len() && es[i].0@ == k {
                let i = choose|i: int| 0 <= i < es.len() && es[i].0@ == k;
                if i < es.len() - 1 {
                    assert(init[i] == es[i]);
                    assert(entries_map(init).dom().contains(init[i].0@));
                }
            }
        }
        assert forall|i: int| #![trigger es[i]] 0 <= i < es.len() implies m.dom().contains(
            es[i].0@,
        ) && m[es[i].0@] == es[i].1.deep_view() by {
            if i < es.len() - 1 {
                assert(init[i] == es[i]);
                assert(es[i].0@ != es[es.len() - 1].0@);
            }
        }
    }
}

/// Replacing the value of an existing key.
proof fn lemma_entries_map_update(es: Seq<(String, Vec<String>)>, i: int, e: (String, Vec<String>))
    requires
        keys_distinct(es),
        0 <= i < es.len(),
        es[i].0@ == e.0@,
    ensures
        keys_distinct(es.update(i, e)),
        entries_map(es.update(i, e)) == entries_map(es).insert(e.0@, e.1.deep_view()),
{
    let es2 = es.update(i, e);
    assert(keys_distinct(es2)) by {
        assert forall|a: int, b: int| 0 <= a < b < es2.len() implies #[trigger] es2[a].0@
            != #[trigger] es2[b].0@ by {
            assert(es2[a].0@ == es[a].0@);
            assert(es2[b].0@ == es[b].0@);
        }
    }
    lemma_entries_map(es);
    lemma_entries_map(es2);
    let m1 = entries_map(es2);
    let m2 = entries_map(es).insert(e.0@, e.1.deep_view());
    assert forall|k: Seq<char>| #[trigger] m1.dom().contains(k) <==> m2.dom().contains(k) by {
        if m1.dom().contains(k) {
            let j = choose|j: int| 0 <= j < es2.len() && es2[j].0@ == k;
            assert(es2[j].0@ == es[j].0@);
            assert(es[j] == es[j]);
        }
        if m2.dom().contains(k) && k != e.0@ {
            let j = choose|j: int| 0 <= j < es.len() && es[j].0@ == k;
            assert(es2[j].0@ == es[j].0@);
            assert(es2[j] == es2[j]);
        }
        if k == e.0@ {
            assert(es2[i] == e);
        }
    }
    assert forall|k: Seq<char>| m1.dom().contains(k) implies #[trigger] m1[k] == m2[k] by {
        let j = choose|j: int| 0 <= j < es2.len() && es2[j].0@ == k;
        assert(es2[j] == es2[j]);
        if j == i {
            assert(es2[j] == e);
        } else {
            assert(es2[j] == es[j]);
            assert(es[j] == es[j]);
        }
    }
    assert(m1 =~= m2);
}

impl SendMap {
    #[verifier::type_invariant]
    spec fn distinct_recipients(self) -> bool {
        keys_distinct(self.entries@)
    }

    /// The map from recipient to paths.
    pub closed spec fn model(self) -> Map<Seq<char>, Seq<Seq<char>>> {
        entries_map(self.entries@)
    }

    /// An empty map.
    pub fn new() -> (m: Self)
        ensures
            m@ == Map::<Seq<char>, Seq<Seq<char>>>::empty(),
    {
        let m = SendMap { entries: Vec::new() };
        assert(m@ =~= Map::<Seq<char>, Seq<Seq<char>>>::empty());
        m
    }

    /// Number of recipients.
    pub fn len(&self) -> (n: usize)
        ensures
            n == self@.len(),
    {
        proof {
            use_type_invariant(self);
            self.lemma_len();
        }
        self.entries.len()
    }

    proof fn lemma_len(&self)
        requires
            keys_distinct(self.entries@),
        ensures
            self@.len() == self.entries@.len(),
        decreases self.entries@.len(),
    {
        lemma_entries_len(self.entries@);
    }

    /// Sets the paths of `recipient`, replacing any earlier ones
    /// (`HashMap::insert`).
    pub fn insert(&mut self, recipient: String, paths: Vec<String>)
        ensures
            final(self)@ == old(self)@.insert(recipient@, paths.deep_view()),
    {
        proof {
            use_type_invariant(&*self);
        }
        let mut i: usize = 0;
        while i < self.entries.len()
            invariant
                i <= self.entries.len(),
                keys_distinct(self.entries@),
                self.entries@ == old(self).entries@,
                forall|j: int| 0 <= j < i ==> #[trigger] self.entries@[j].0@ != recipient@,
            decreases self.entries.len() - i,
        {
            if self.entries[i].0 == recipient {
                let ghost es = self.entries@;
                let e = (recipient, paths);
                proof {
                    lemma_entries_map_update(es, i as int, e);
                }
                let mut entries: Vec<(String, Vec<String>)> = Vec::new();
                std::mem::swap(&mut entries, &mut self.entries);
                entries.set(i, e);
                assert(entries@ == es.update(i as int, e));
                self.entries = entries;
                assert(self.entries@ == es.update(i as int, e));
                return ;
            }
            i += 1;
        }
        let ghost es = self.entries@;
        let e = (recipient, paths);
        let mut entries: Vec<(String, Vec<String>)> = Vec::new();
        std::mem::swap(&mut entries, &mut self.entries);
        entries.push(e);
        assert(entries@.drop_last() =~= es);
        assert(entries_map(entries@) == entries_map(es).insert(e.0@, e.1.deep_view()));
        assert(keys_distinct(entries@)) by {
            assert forall|a: int, b: int| 0 <= a < b < entries@.len() implies #[trigger] entries@[
                a
            ].0@ != #[trigger] entries@[b].0@ by {
                if b == es.len() {
                    assert(entries@[a] == es[a]);
                } else {
                    assert(entries@[a] == es[a] && entries@[b] == es[b]);
                }
            }
        }
        self.entries = entries;
    }

    /// The paths given for `recipient`, if any (`HashMap::get`).
    pub fn get(&self, recipient: &String) -> (r: Option<&Vec<String>>)
        ensures
            r is None <==> !self@.dom().contains(recipient@),
            r matches Some(v) ==> self@[recipient@] == v.deep_view(),
    {
        proof {
            use_type_invariant(self);
            lemma_entries_map(self.entries@);
        }
        let mut i: usize = 0;
        while i < self.entries.len()
            invariant
                i <= self.entries.len(),
                forall|j: int| 0 <= j < i ==> #[trigger] self.entries@[j].0@ != recipient@,
            decreases self.entries.len() - i,
        {
            if self.entries[i].0 == *recipient {
                proof {
                    use_type_invariant(self);
                    lemma_entries_map(self.entries@);
                    assert(self.entries@[i as int] == self.entries@[i as int]);
                }
                return Some(&self.entries[i].1);
            }
            i += 1;
        }
        proof {
            use_type_invariant(self);
            lemma_entries_map(self.entries@);
            if self@.dom().contains(recipient@) {
                let j = choose|j: int| 0 <= j < self.entries@.len() && self.entries@[j].0@ == recipient@;
                assert(self.entries@[j].0@ != recipient@);
            }
        }
        None
    }

    /// All recipients with their paths, each recipient once.
    pub fn entries(&self) -> (r: &Vec<(String, Vec<String>)>)
        ensures
            r.len() == self@.len(),
            keys_distinct(r@),
            forall|i: int|
                #![trigger r@[i]]
                0 <= i < r.len() ==> self@.dom().contains(r@[i].0@) && self@[r@[i].0@]
                    == r@[i].1.deep_view(),
            forall|k: Seq<char>|
                #[trigger] self@.dom().contains(k) ==> exists|i: int|
                    0 <= i < r.len() && r@[i].0@ == k,
    {
        proof {
            use_type_invariant(self);
            lemma_entries_map(self.entries@);
            self.lemma_len();
        }
        &self.entries
    }
}

/// A list of entries with distinct keys has as many entries as its map has keys.
proof fn lemma_entries_len(es: Seq<(String, Vec<String>)>)
    requires
        keys_distinct(es),
    ensures
        entries_map(es).len() == es.len(),
        entries_map(es).dom().finite(),
    decreases es.len(),
{
    if es.len() > 0 {
        let init = es.drop_last();
        assert(keys_distinct(init)) by {
            assert forall|i: int, j: int| 0 <= i < j < init.len() implies #[trigger] init[i].0@
                != #[trigger] init[j].0@ by {
                assert(init[i] == es[i] && init[j] == es[j]);
            }
        }
        lemma_entries_len(init);
        lemma_entries_map(init);
        assert(!entries_map(init).dom().contains(es.last().0@)) by {
            if entries_map(init).dom().contains(es.last().0@) {
                let i = choose|i: int| 0 <= i < init.len() && init[i].0@ == es.last().0@;
                assert(init[i] == es[i]);
            }
        }
    }
}

/// Two lists of entries with the same keys and values stand for the same map.
proof fn lemma_entries_map_same(a: Seq<(String, Vec<String>)>, b: Seq<(String, Vec<String>)>)
    requires
        a.len() == b.len(),
        forall|i: int|
            0 <= i < a.len() ==> #[trigger] a[i].0@ == b[i].0@ && a[i].1.deep_view()
                == b[i].1.deep_view(),
    ensures
        entries_map(a) == entries_map(b),
    decreases a.len(),
{
    if a.len() > 0 {
        let a2 = a.drop_last();
        let b2 = b.drop_last();
        assert forall|i: int| 0 <= i < a2.len() implies #[trigger] a2[i].0@ == b2[i].0@
            && a2[i].1.deep_view() == b2[i].1.deep_view() by {
            assert(a2[i] == a[i] && b2[i] == b[i]);
        }
        lemma_entries_map_same(a2, b2);
        assert(a[a.len() - 1].0@ == b[b.len() - 1].0@);
    }
}

/// A copy of every string of `v`.
fn clone_strings(v: &Vec<String>) -> (r: Vec<String>)
    ensures
        r.deep_view() == v.deep_view(),
{
    let mut r: Vec<String> = Vec::new();
    let mut i: usize = 0;
    while i < v.len()
        invariant
            i <= v.len(),
            r.deep_view() =~= v.deep_view().take(i as int),
        decreases v.len() - i,
    {
        let s = v[i].clone();
        let ghost before = r.deep_view();
        r.push(s);
        assert(r.deep_view() =~= before.push(v[i as int]@));
        i += 1;
    }
    assert(v.deep_view().take(i as int) =~= v.deep_view());
    r
}

impl Clone for SendMap {
    /// A copy with the same recipients and paths.
    fn clone(&self) -> (r: Self)
        ensures
            r@ == self@,
    {
        proof {
            use_type_invariant(self);
        }
        let mut entries: Vec<(String, Vec<String>)> = Vec::new();
        let mut i: usize = 0;
        while i < self.entries.len()
            invariant
                i <= self.entries.len(),
                entries@.len() == i,
                keys_distinct(self.entries@),
                forall|j: int|
                    0 <= j < i ==> #[trigger] entries@[j].0@ == self.entries@[j].0@
                        && entries@[j].1.deep_view() == self.entries@[j].1.deep_view(),
            decreases self.entries.len() - i,
        {
            let e = (self.entries[i].0.clone(), clone_strings(&self.entries[i].1));
            entries.push(e);
            i += 1;
        }
        proof {
            lemma_entries_map_same(entries@, self.entries@);
            assert forall|a: int, b: int| 0 <= a < b < entries@.len() implies #[trigger] entries@[
                a
            ].0@ != #[trigger] entries@[b].0@ by {
                assert(entries@[a].0@ == self.entries@[a].0@);
                assert(entries@[b].0@ == self.entries@[b].0@);
            }
        }
        SendMap { entries }
    }
}

impl View for SendMap {
    type V = Map<Seq<char>, Seq<Seq<char>>>;

    open spec fn view(&self) -> Map<Seq<char>, Seq<Seq<char>>> {
        self.model()
    }
}

} // verus!
