//! The task registry: which execution handle runs each task id.

use vstd::prelude::*;

verus! {

/// Whether some entry of `s` is keyed by `k`.
pub open spec fn has_id<H>(s: Seq<(String, H)>, k: Seq<char>) -> bool {
    exists|i: int| 0 <= i < s.len() && #[trigger] s[i].0@ == k
}

/// No two entries of `s` share an id.
pub open spec fn unique_ids<H>(s: Seq<(String, H)>) -> bool {
    forall|i: int, j: int|
        0 <= i < s.len() && 0 <= j < s.len() && #[trigger] s[i].0@ == #[trigger] s[j].0@ ==> i == j
}

/// The map from id to handle that the entries of `s` hold.
pub open spec fn entries_map<H>(s: Seq<(String, H)>) -> Map<Seq<char>, H> {
    Map::new(
        |k: Seq<char>| has_id(s, k),
        |k: Seq<char>| s[choose|i: int| 0 <= i < s.len() && #[trigger] s[i].0@ == k].1,
    )
}

proof fn lemma_index_of<H>(s: Seq<(String, H)>, k: Seq<char>, i: int)
    requires
        unique_ids(s),
        0 <= i < s.len(),
        s[i].0@ == k,
    ensures
        entries_map(s).contains_key(k),
        entries_map(s)[k] == s[i].1,
{
    assert(has_id(s, k));
    let j = choose|j: int| 0 <= j < s.len() && #[trigger] s[j].0@ == k;
    assert(s[j].0@ == s[i].0@);
}

proof fn lemma_push_fresh<H>(s: Seq<(String, H)>, e: (String, H))
    requires
        unique_ids(s),
        !has_id(s, e.0@),
    ensures
        unique_ids(s.push(e)),
        entries_map(s.push(e)) == entries_map(s).insert(e.0@, e.1),
{
    let t = s.push(e);
    assert forall|i: int, j: int|
        0 <= i < t.len() && 0 <= j < t.len() && #[trigger] t[i].0@ == #[trigger] t[j].0@ implies i
        == j by {
        if i < s.len() && j < s.len() {
            assert(t[i] == s[i] && t[j] == s[j]);
        } else if i < s.len() {
            assert(t[i] == s[i]);
        } else if j < s.len() {
            assert(t[j] == s[j]);
        }
    }
    let m = entries_map(s).insert(e.0@, e.1);
    assert forall|k: Seq<char>| #[trigger] entries_map(t).contains_key(k) <==> m.contains_key(k) by {
        if has_id(t, k) {
            let i = choose|i: int| 0 <= i < t.len() && #[trigger] t[i].0@ == k;
            if i < s.len() {
                assert(t[i] == s[i]);
                assert(has_id(s, k));
            }
        }
        if has_id(s, k) {
            let i = choose|i: int| 0 <= i < s.len() && #[trigger] s[i].0@ == k;
            assert(t[i] == s[i]);
            assert(has_id(t, k));
        }
        if k == e.0@ {
            assert(t[s.len() as int] == e);
            assert(has_id(t, k));
        }
    }
    assert forall|k: Seq<char>| #[trigger] entries_map(t).contains_key(k) implies entries_map(t)[k]
        == m[k] by {
        let i = choose|i: int| 0 <= i < t.len() && #[trigger] t[i].0@ == k;
        lemma_index_of(t, k, i);
        if i < s.len() {
            assert(t[i] == s[i]);
            lemma_index_of(s, k, i);
        } else {
            assert(t[i] == e);
        }
    }
    assert(entries_map(t) =~= m);
}

proof fn lemma_swap_remove<H>(s: Seq<(String, H)>, i: int)
    requires
        unique_ids(s),
        0 <= i < s.len(),
    ensures
        unique_ids(s.update(i, s.last()).drop_last()),
        entries_map(s.update(i, s.last()).drop_last()) == entries_map(s).remove(s[i].0@),
{
    let t = s.update(i, s.last()).drop_last();
    let n = s.len() - 1;
    // Position `p` of `t` holds the entry that was at `src(p)` in `s`.
    assert forall|p: int| 0 <= p < t.len() implies #[trigger] t[p] == s[if p == i {
        n
    } else {
        p
    }] by {}
    assert forall|a: int, b: int|
        0 <= a < t.len() && 0 <= b < t.len() && #[trigger] t[a].0@ == #[trigger] t[b].0@ implies a
        == b by {
        let sa = if a == i {
            n
        } else {
            a
        };
        let sb = if b == i {
            n
        } else {
            b
        };
        assert(t[a] == s[sa] && t[b] == s[sb]);
    }
    let m = entries_map(s).remove(s[i].0@);
    assert forall|k: Seq<char>| #[trigger] entries_map(t).contains_key(k) <==> m.contains_key(k) by {
        if has_id(t, k) {
            let p = choose|p: int| 0 <= p < t.len() && #[trigger] t[p].0@ == k;
            let sp = if p == i {
                n
            } else {
                p
            };
            assert(t[p] == s[sp]);
            assert(has_id(s, k));
            assert(s[sp].0@ != s[i].0@);
        }
        if has_id(s, k) && k != s[i].0@ {
            let q = choose|q: int| 0 <= q < s.len() && #[trigger] s[q].0@ == k;
            assert(q != i);
            let tp = if q == n {
                i
            } else {
                q
            };
            assert(t[tp] == s[q]);
            assert(has_id(t, k));
        }
    }
    assert forall|k: Seq<char>| #[trigger] entries_map(t).contains_key(k) implies entries_map(t)[k]
        == m[k] by {
        let p = choose|p: int| 0 <= p < t.len() && #[trigger] t[p].0@ == k;
        let sp = if p == i {
            n
        } else {
            p
        };
        assert(t[p] == s[sp]);
        lemma_index_of(t, k, p);
        lemma_index_of(s, k, sp);
    }
    assert(entries_map(t) =~= m);
}

/// Which handle runs each task id. An insert replaces the handle the id had.
pub struct TaskRegistry<H> {
    entries: Vec<(String, H)>,
}

impl<H> View for TaskRegistry<H> {
    type V = Map<Seq<char>, H>;

    closed spec fn view(&self) -> Map<Seq<char>, H> {
        entries_map(self.entries@)
    }
}

impl<H> TaskRegistry<H> {
    /// No two entries share an id.
    pub closed spec fn wf(&self) -> bool {
        unique_ids(self.entries@)
    }

    /// An empty registry.
    pub fn new() -> (r: TaskRegistry<H>)
        ensures
            r.wf(),
            r@ == Map::<Seq<char>, H>::empty(),
    {
        let r = TaskRegistry { entries: Vec::new() };
        assert(r@ =~= Map::<Seq<char>, H>::empty());
        r
    }

    fn position(&self, id: &String) -> (r: Option<usize>)
        requires
            self.wf(),
        ensures
            match r {
                Some(i) => i < self.entries@.len() && self.entries@[i as int].0@ == id@,
                None => !has_id(self.entries@, id@),
            },
    {
        let mut i: usize = 0;
        while i < self.entries.len()
            invariant
                i <= self.entries@.len(),
                forall|j: int| 0 <= j < i ==> #[trigger] self.entries@[j].0@ != id@,
            decreases self.entries@.len() - i,
        {
            if self.entries[i].0 == *id {
                return Some(i);
            }
            i = i + 1;
        }
        None
    }

    /// Whether `id` has a handle.
    pub fn contains(&self, id: &String) -> (r: bool)
        requires
            self.wf(),
        ensures
            r == self@.contains_key(id@),
    {
        match self.position(id) {
            Some(i) => {
                proof {
                    lemma_index_of(self.entries@, id@, i as int);
                }
                true
            },
            None => false,
        }
    }

    /// The handle of `id`, if it has one.
    pub fn get(&self, id: &String) -> (r: Option<&H>)
        requires
            self.wf(),
        ensures
            match r {
                Some(h) => self@.contains_key(id@) && self@[id@] == *h,
                None => !self@.contains_key(id@),
            },
    {
        match self.position(id) {
            Some(i) => {
                proof {
                    lemma_index_of(self.entries@, id@, i as int);
                }
                Some(&self.entries[i].1)
            },
            None => None,
        }
    }

    /// Takes the handle of `id` out of the registry.
    pub fn remove(&mut self, id: &String) -> (prior: Option<H>)
        requires
            old(self).wf(),
        ensures
            final(self).wf(),
            final(self)@ == old(self)@.remove(id@),
            prior == (if old(self)@.contains_key(id@) {
                Some(old(self)@[id@])
            } else {
                None
            }),
    {
        match self.position(id) {
            Some(i) => {
                proof {
                    lemma_index_of(self.entries@, id@, i as int);
                    lemma_swap_remove(self.entries@, i as int);
                }
                let e = self.entries.swap_remove(i);
                Some(e.1)
            },
            None => {
                assert(self@.remove(id@) =~= self@);
                None
            },
        }
    }

    /// Records `handle` for `id`, handing back the handle it replaces.
    pub fn insert(&mut self, id: String, handle: H) -> (prior: Option<H>)
        requires
            old(self).wf(),
        ensures
            final(self).wf(),
            final(self)@ == old(self)@.insert(id@, handle),
            prior == (if old(self)@.contains_key(id@) {
                Some(old(self)@[id@])
            } else {
                None
            }),
    {
        let prior = self.remove(&id);
        proof {
            let ghost s = self.entries@;
            assert(!self@.contains_key(id@));
            assert(!has_id(s, id@));
            lemma_push_fresh(s, (id, handle));
        }
        self.entries.push((id, handle));
        assert(self@ =~= old(self)@.insert(id@, handle));
        prior
    }
}

} // verus!
