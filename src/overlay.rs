use vstd::prelude::*;

verus! {

/// A storage entry: a key and the value written under it.
pub type Entry = (Vec<u8>, Vec<u8>);

/// The map described by a log of writes: a later write to a key hides the
/// earlier ones.
pub open spec fn log_map(s: Seq<(Seq<u8>, Seq<u8>)>) -> Map<Seq<u8>, Seq<u8>>
    decreases s.len(),
{
    if s.len() == 0 {
        Map::empty()
    } else {
        log_map(s.drop_last()).insert(s.last().0, s.last().1)
    }
}

/// The newest value written under `k` in a log, if any.
pub open spec fn log_find(s: Seq<(Seq<u8>, Seq<u8>)>, k: Seq<u8>) -> Option<Seq<u8>> {
    if log_map(s).contains_key(k) {
        Some(log_map(s)[k])
    } else {
        None
    }
}

pub open spec fn entries_view(v: Seq<Entry>) -> Seq<(Seq<u8>, Seq<u8>)> {
    v.map_values(|e: Entry| (e.0@, e.1@))
}

/// Appending a write to a log inserts it into the described map.
pub proof fn lemma_log_map_push(s: Seq<(Seq<u8>, Seq<u8>)>, e: (Seq<u8>, Seq<u8>))
    ensures
        log_map(s.push(e)) == log_map(s).insert(e.0, e.1),
{
    assert(s.push(e).drop_last() =~= s);
}

/// Appending a whole log to another lays its map over the first one.
pub proof fn lemma_log_map_append(s: Seq<(Seq<u8>, Seq<u8>)>, t: Seq<(Seq<u8>, Seq<u8>)>)
    ensures
        log_map(s + t) == log_map(s).union_prefer_right(log_map(t)),
    decreases t.len(),
{
    if t.len() == 0 {
        assert(s + t =~= s);
        assert(log_map(s).union_prefer_right(log_map(t)) =~= log_map(s));
    } else {
        let t0 = t.drop_last();
        lemma_log_map_append(s, t0);
        assert((s + t).drop_last() =~= s + t0);
        assert(log_map(s + t) =~= log_map(s).union_prefer_right(log_map(t)));
    }
}

/// Byte-wise equality of two byte strings.
pub fn bytes_eq(a: &Vec<u8>, b: &Vec<u8>) -> (r: bool)
    ensures
        r == (a@ == b@),
{
    if a.len() != b.len() {
        return false;
    }
    let mut i: usize = 0;
    while i < a.len()
        invariant
            a.len() == b.len(),
            i <= a.len(),
            forall|j: int| 0 <= j < i ==> a@[j] == b@[j],
        decreases a.len() - i,
    {
        if a[i] != b[i] {
            return false;
        }
        i = i + 1;
    }
    assert(a@ =~= b@);
    true
}

/// Copies a byte string.
pub fn copy_bytes(a: &Vec<u8>) -> (r: Vec<u8>)
    ensures
        r@ == a@,
{
    let mut r: Vec<u8> = Vec::new();
    let mut i: usize = 0;
    while i < a.len()
        invariant
            i <= a.len(),
            r@ == a@.subrange(0, i as int),
        decreases a.len() - i,
    {
        r.push(a[i]);
        i = i + 1;
        assert(r@ =~= a@.subrange(0, i as int));
    }
    assert(a@.subrange(0, a.len() as int) =~= a@);
    r
}

/// Copies a log of writes.
pub fn copy_entries(v: &Vec<Entry>) -> (r: Vec<Entry>)
    ensures
        entries_view(r@) == entries_view(v@),
{
    let mut r: Vec<Entry> = Vec::new();
    let mut i: usize = 0;
    while i < v.len()
        invariant
            i <= v.len(),
            entries_view(r@) == entries_view(v@.take(i as int)),
        decreases v.len() - i,
    {
        let k = copy_bytes(&v[i].0);
        let b = copy_bytes(&v[i].1);
        let ghost before = r@;
        r.push((k, b));
        proof {
            assert(entries_view(r@) =~= entries_view(before).push(entries_view(v@)[i as int]));
            assert(v@.take(i + 1) =~= v@.take(i as int).push(v@[i as int]));
            assert(entries_view(v@.take(i + 1)) =~= entries_view(v@.take(i as int)).push(
                entries_view(v@)[i as int],
            ));
        }
        i = i + 1;
    }
    assert(v@.take(v.len() as int) =~= v@);
    r
}

/// Looks up the newest value written under `k` in a log of writes.
pub fn find_in_log(log: &Vec<Entry>, k: &Vec<u8>) -> (r: Option<Vec<u8>>)
    ensures
        r matches Some(v) ==> log_find(entries_view(log@), k@) == Some(v@),
        r is None ==> log_find(entries_view(log@), k@) is None,
{
    let mut i: usize = log.len();
    assert(log@.subrange(0, i as int) =~= log@);
    while i > 0
        invariant
            i <= log.len(),
            log_find(entries_view(log@), k@) == log_find(entries_view(log@.subrange(0, i as int)), k@),
        decreases i,
    {
        let ghost pre = entries_view(log@.subrange(0, i as int));
        assert(pre.drop_last() =~= entries_view(log@.subrange(0, i - 1)));
        assert(pre.last() == (log@[i - 1].0@, log@[i - 1].1@));
        if bytes_eq(&log[i - 1].0, k) {
            return Some(copy_bytes(&log[i - 1].1));
        }
        i = i - 1;
    }
    assert(entries_view(log@.subrange(0, 0)) =~= Seq::empty());
    None
}

/// Pending storage writes laid over a committed base.
///
/// Both layers are logs of writes in which a later write to a key hides the
/// earlier ones; their views are the maps they describe.
pub struct Overlay {
    pub committed: Vec<Entry>,
    pub prospective: Vec<Entry>,
}

impl Overlay {
    pub open spec fn committed_map(&self) -> Map<Seq<u8>, Seq<u8>> {
        log_map(entries_view(self.committed@))
    }

    pub open spec fn prospective_map(&self) -> Map<Seq<u8>, Seq<u8>> {
        log_map(entries_view(self.prospective@))
    }

    /// What a read sees: pending writes over the committed state.
    pub open spec fn current_map(&self) -> Map<Seq<u8>, Seq<u8>> {
        self.committed_map().union_prefer_right(self.prospective_map())
    }

    /// An overlay with nothing committed and nothing pending.
    pub fn new() -> (r: Overlay)
        ensures
            r.committed_map() == Map::<Seq<u8>, Seq<u8>>::empty(),
            r.prospective_map() == Map::<Seq<u8>, Seq<u8>>::empty(),
    {
        Overlay { committed: Vec::new(), prospective: Vec::new() }
    }

    /// An overlay over the given committed writes, with nothing pending.
    pub fn with_committed(base: Vec<Entry>) -> (r: Overlay)
        ensures
            r.committed_map() == log_map(entries_view(base@)),
            r.prospective_map() == Map::<Seq<u8>, Seq<u8>>::empty(),
    {
        Overlay { committed: base, prospective: Vec::new() }
    }

    /// Reads a key: the pending value if there is one, else the committed one.
    pub fn read(&self, k: &Vec<u8>) -> (r: Option<Vec<u8>>)
        ensures
            r matches Some(v) ==> self.current_map().contains_key(k@) && self.current_map()[k@] == v@,
            r is None ==> !self.current_map().contains_key(k@),
    {
        match find_in_log(&self.prospective, k) {
            Some(v) => Some(v),
            None => find_in_log(&self.committed, k),
        }
    }

    /// Reads a key from the committed layer only.
    pub fn read_committed(&self, k: &Vec<u8>) -> (r: Option<Vec<u8>>)
        ensures
            r matches Some(v) ==> self.committed_map().contains_key(k@) && self.committed_map()[k@] == v@,
            r is None ==> !self.committed_map().contains_key(k@),
    {
        find_in_log(&self.committed, k)
    }

    /// Records a pending write; the committed layer is untouched.
    pub fn write(&mut self, k: Vec<u8>, v: Vec<u8>)
        ensures
            final(self).committed_map() == old(self).committed_map(),
            final(self).prospective_map() == old(self).prospective_map().insert(k@, v@),
    {
        let ghost pre = entries_view(self.prospective@);
        self.prospective.push((k, v));
        proof {
            assert(entries_view(self.prospective@) =~= pre.push((k@, v@)));
            lemma_log_map_push(pre, (k@, v@));
        }
    }

    /// Merges the pending writes into the committed layer and clears them.
    pub fn commit_prospective(&mut self)
        ensures
            final(self).committed_map() == old(self).committed_map().union_prefer_right(
                old(self).prospective_map(),
            ),
            final(self).prospective_map() == Map::<Seq<u8>, Seq<u8>>::empty(),
    {
        let ghost c0 = entries_view(self.committed@);
        let ghost p = entries_view(self.prospective@);
        let mut i: usize = 0;
        while i < self.prospective.len()
            invariant
                i <= self.prospective.len(),
                p == entries_view(self.prospective@),
                entries_view(self.committed@) == c0 + p.subrange(0, i as int),
            decreases self.prospective.len() - i,
        {
            let k = copy_bytes(&self.prospective[i].0);
            let v = copy_bytes(&self.prospective[i].1);
            let ghost before = self.committed@;
            self.committed.push((k, v));
            proof {
                assert(entries_view(self.committed@) =~= entries_view(before).push(p[i as int]));
                assert(p.subrange(0, i + 1) =~= p.subrange(0, i as int).push(p[i as int]));
            }
            i = i + 1;
            assert(entries_view(self.committed@) =~= c0 + p.subrange(0, i as int));
        }
        self.prospective = Vec::new();
        proof {
            assert(p.subrange(0, p.len() as int) =~= p);
            lemma_log_map_append(c0, p);
            assert(entries_view(self.prospective@) =~= Seq::empty());
        }
    }

    /// Drops the pending writes; the committed layer is untouched.
    pub fn discard_prospective(&mut self)
        ensures
            final(self).committed_map() == old(self).committed_map(),
            final(self).prospective_map() == Map::<Seq<u8>, Seq<u8>>::empty(),
    {
        self.prospective = Vec::new();
        assert(entries_view(self.prospective@) =~= Seq::empty());
    }
}

} // verus!
