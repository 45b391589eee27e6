use vstd::prelude::*;

verus! {

/// Whether a write stamped `(v1, o1)` wins over one stamped `(v2, o2)`: the
/// higher version wins, and on equal versions the lower owner id wins.
pub open spec fn beats(v1: u64, o1: u32, v2: u64, o2: u32) -> bool {
    v1 > v2 || (v1 == v2 && o1 < o2)
}

/// The mathematical value of a cell: owner id, version and value text.
pub struct CellView {
    pub client_id: u32,
    pub version: u64,
    pub value: Seq<char>,
}

/// Whether the candidate `c` replaces the current cell `cur`.
pub open spec fn cell_beats(c: CellView, cur: CellView) -> bool {
    beats(c.version, c.client_id, cur.version, cur.client_id)
}

/// The versioned record held for one key.
pub struct Cell {
    pub client_id: u32,
    pub version: u64,
    pub value: String,
}

impl View for Cell {
    type V = CellView;

    open spec fn view(&self) -> CellView {
        CellView { client_id: self.client_id, version: self.version, value: self.value@ }
    }
}

impl Cell {
    /// A fresh cell written by `client_id`, at version 0.
    pub fn new(client_id: u32, value: String) -> (r: Cell)
        ensures
            r@ == (CellView { client_id, version: 0, value: value@ }),
    {
        Cell { client_id, version: 0, value }
    }
}

/// The table after a foreign update `c` for key `k` has been offered to `m`:
/// inserted when the key is absent, applied when it wins, else dropped.
pub open spec fn merge_spec(m: Map<Seq<char>, CellView>, k: Seq<char>, c: CellView) -> Map<
    Seq<char>,
    CellView,
> {
    if !m.contains_key(k) || cell_beats(c, m[k]) {
        m.insert(k, c)
    } else {
        m
    }
}

/// The table after replica `me` writes `v` to key `k` locally.
pub open spec fn write_local_spec(m: Map<Seq<char>, CellView>, k: Seq<char>, v: Seq<char>, me: u32) -> Map<
    Seq<char>,
    CellView,
> {
    m.insert(k, local_cell(m, k, v, me))
}

/// The cell that a local write of `v` to `k` by `me` produces.
pub open spec fn local_cell(m: Map<Seq<char>, CellView>, k: Seq<char>, v: Seq<char>, me: u32) -> CellView {
    if m.contains_key(k) {
        CellView { client_id: me, version: (m[k].version + 1) as u64, value: v }
    } else {
        CellView { client_id: me, version: 0, value: v }
    }
}

/// The mapping from key to cell. Keys are unique.
pub struct Store {
    entries: Vec<(String, Cell)>,
}

impl View for Store {
    type V = Map<Seq<char>, CellView>;

    closed spec fn view(&self) -> Map<Seq<char>, CellView> {
        Map::new(
            |k: Seq<char>| exists|i: int| 0 <= i < self.entries@.len() && self.entries@[i].0@ == k,
            |k: Seq<char>|
                self.entries@[choose|i: int|
                    0 <= i < self.entries@.len() && self.entries@[i].0@ == k].1@,
        )
    }
}

impl Store {
    /// No key appears twice.
    pub closed spec fn wf(&self) -> bool {
        forall|i: int, j: int|
            0 <= i < self.entries@.len() && 0 <= j < self.entries@.len() && i != j
                ==> self.entries@[i].0@ != self.entries@[j].0@
    }

    proof fn lemma_view_at(&self, i: int)
        requires
            self.wf(),
            0 <= i < self.entries@.len(),
        ensures
            self@.contains_key(self.entries@[i].0@),
            self@[self.entries@[i].0@] == self.entries@[i].1@,
    {
        let k = self.entries@[i].0@;
        assert(self@.dom().contains(k));
        let j = choose|j: int| 0 <= j < self.entries@.len() && self.entries@[j].0@ == k;
        assert(j == i);
    }

    /// An empty table.
    pub fn new() -> (r: Store)
        ensures
            r.wf(),
            r@ == Map::<Seq<char>, CellView>::empty(),
    {
        let r = Store { entries: Vec::new() };
        assert(r@ =~= Map::<Seq<char>, CellView>::empty());
        r
    }

    /// The position of `key`, if present.
    fn find(&self, key: &String) -> (r: Option<usize>)
        requires
            self.wf(),
        ensures
            match r {
                Some(i) => i < self.entries@.len() && self.entries@[i as int].0@ == key@,
                None => !self@.contains_key(key@),
            },
    {
        let mut i: usize = 0;
        while i < self.entries.len()
            invariant
                i <= self.entries@.len(),
                forall|j: int| 0 <= j < i ==> self.entries@[j].0@ != key@,
            decreases self.entries@.len() - i,
        {
            if self.entries[i].0 == *key {
                return Some(i);
            }
            i += 1;
        }
        None
    }

    /// The current value for `key`, or `None` when the key was never written.
    pub fn read(&self, key: &String) -> (r: Option<String>)
        requires
            self.wf(),
        ensures
            match r {
                Some(v) => self@.contains_key(key@) && v@ == self@[key@].value,
                None => !self@.contains_key(key@),
            },
    {
        match self.find(key) {
            Some(i) => {
                proof {
                    self.lemma_view_at(i as int);
                }
                Some(self.entries[i].1.value.clone())
            },
            None => None,
        }
    }

    /// The whole cell for `key`, or `None` when the key was never written.
    pub fn get_cell(&self, key: &String) -> (r: Option<(u32, u64, String)>)
        requires
            self.wf(),
        ensures
            match r {
                Some((o, ver, v)) => self@.contains_key(key@) && self@[key@] == (CellView {
                    client_id: o,
                    version: ver,
                    value: v@,
                }),
                None => !self@.contains_key(key@),
            },
    {
        match self.find(key) {
            Some(i) => {
                proof {
                    self.lemma_view_at(i as int);
                }
                let c = &self.entries[i].1;
                Some((c.client_id, c.version, c.value.clone()))
            },
            None => None,
        }
    }

    /// Replaces the cell at position `i`.
    fn set_at(&mut self, i: usize, c: Cell)
        requires
            old(self).wf(),
            i < old(self).entries@.len(),
        ensures
            final(self).wf(),
            final(self)@ == old(self)@.insert(old(self).entries@[i as int].0@, c@),
    {
        let ghost k = self.entries@[i as int].0@;
        let ghost pre = *self;
        let key = self.entries[i].0.clone();
        self.entries.set(i, (key, c));
        proof {
            assert forall|x: Seq<char>| #[trigger] self@.contains_key(x) == pre@.insert(k, c@).contains_key(x) by {
                if pre@.contains_key(x) {
                    let j = choose|j: int| 0 <= j < pre.entries@.len() && pre.entries@[j].0@ == x;
                    assert(self.entries@[j].0@ == x);
                }
                if self@.contains_key(x) {
                    let j = choose|j: int| 0 <= j < self.entries@.len() && self.entries@[j].0@ == x;
                    assert(pre.entries@[j].0@ == x);
                }
            }
            assert forall|x: Seq<char>| #[trigger] self@.contains_key(x) implies self@[x] == pre@.insert(k, c@)[x] by {
                let j = choose|j: int| 0 <= j < self.entries@.len() && self.entries@[j].0@ == x;
                self.lemma_view_at(j);
                if j != i {
                    pre.lemma_view_at(j);
                }
            }
            assert(self@ =~= pre@.insert(k, c@));
        }
    }

    /// Appends a cell for a key that is not present.
    fn push_new(&mut self, key: String, c: Cell)
        requires
            old(self).wf(),
            !old(self)@.contains_key(key@),
        ensures
            final(self).wf(),
            final(self)@ == old(self)@.insert(key@, c@),
    {
        let ghost k = key@;
        let ghost pre = *self;
        self.entries.push((key, c));
        proof {
            let n = pre.entries@.len() as int;
            assert forall|i: int| 0 <= i < n implies pre.entries@[i].0@ != k by {
                if pre.entries@[i].0@ == k {
                    assert(pre@.contains_key(k));
                }
            }
            assert forall|x: Seq<char>| #[trigger] self@.contains_key(x) == pre@.insert(k, c@).contains_key(x) by {
                if pre@.contains_key(x) {
                    let j = choose|j: int| 0 <= j < pre.entries@.len() && pre.entries@[j].0@ == x;
                    assert(self.entries@[j].0@ == x);
                }
                if x == k {
                    assert(self.entries@[n].0@ == x);
                }
                if self@.contains_key(x) && x != k {
                    let j = choose|j: int| 0 <= j < self.entries@.len() && self.entries@[j].0@ == x;
                    assert(pre.entries@[j].0@ == x);
                }
            }
            assert forall|x: Seq<char>| #[trigger] self@.contains_key(x) implies self@[x] == pre@.insert(k, c@)[x] by {
                let j = choose|j: int| 0 <= j < self.entries@.len() && self.entries@[j].0@ == x;
                self.lemma_view_at(j);
                if j != n {
                    pre.lemma_view_at(j);
                }
            }
            assert(self@ =~= pre@.insert(k, c@));
        }
    }

    /// Offers a foreign update to the table. The result tells whether it was
    /// taken: always for a new key; for a present key only when its
    /// `(version, client_id)` wins over the current cell's.
    pub fn merge_foreign(&mut self, key: String, value: String, client_id: u32, version: u64) -> (r: bool)
        requires
            old(self).wf(),
        ensures
            final(self).wf(),
            final(self)@ == merge_spec(
                old(self)@,
                key@,
                CellView { client_id, version, value: value@ },
            ),
            r == (!old(self)@.contains_key(key@) || cell_beats(
                CellView { client_id, version, value: value@ },
                old(self)@[key@],
            )),
    {
        match self.find(&key) {
            Some(i) => {
                proof {
                    self.lemma_view_at(i as int);
                }
                let cur = &self.entries[i].1;
                if version > cur.version || (version == cur.version && client_id < cur.client_id) {
                    self.set_at(i, Cell { client_id, version, value });
                    true
                } else {
                    false
                }
            },
            None => {
                self.push_new(key, Cell { client_id, version, value });
                true
            },
        }
    }

    /// Writes `value` to `key` on behalf of the local replica `client_id`.
    /// A new key starts at version 0; a present one moves one version up.
    /// Returns the version now held.
    pub fn write_local(&mut self, key: String, value: String, client_id: u32) -> (r: u64)
        requires
            old(self).wf(),
            old(self)@.contains_key(key@) ==> old(self)@[key@].version < u64::MAX,
        ensures
            final(self).wf(),
            final(self)@ == write_local_spec(old(self)@, key@, value@, client_id),
            r == local_cell(old(self)@, key@, value@, client_id).version,
            old(self)@.contains_key(key@) ==> r > old(self)@[key@].version,
    {
        match self.find(&key) {
            Some(i) => {
                proof {
                    self.lemma_view_at(i as int);
                }
                let ver = self.entries[i].1.version + 1;
                self.set_at(i, Cell { client_id, version: ver, value });
                ver
            },
            None => {
                self.push_new(key, Cell::new(client_id, value));
                0
            },
        }
    }

    /// Whether a local write to `key` can still move its version up.
    pub fn can_write_local(&self, key: &String) -> (r: bool)
        requires
            self.wf(),
        ensures
            r == (self@.contains_key(key@) ==> self@[key@].version < u64::MAX),
    {
        match self.find(key) {
            Some(i) => {
                proof {
                    self.lemma_view_at(i as int);
                }
                self.entries[i].1.version < u64::MAX
            },
            None => true,
        }
    }
}

} // verus!
