use vstd::prelude::*;

use crate::cell::{beats, cell_beats, local_cell, merge_spec, write_local_spec, CellView};

verus! {

/// The table after the keyed updates of `s` have been offered to `m` in order.
pub open spec fn apply_all(m: Map<Seq<char>, CellView>, s: Seq<(Seq<char>, CellView)>) -> Map<
    Seq<char>,
    CellView,
>
    decreases s.len(),
{
    if s.len() == 0 {
        m
    } else {
        merge_spec(apply_all(m, s.drop_last()), s.last().0, s.last().1)
    }
}

/// The table after the updates `cs` of the single key `k` have been offered to
/// `m` in order.
pub open spec fn merge_each(m: Map<Seq<char>, CellView>, k: Seq<char>, cs: Seq<CellView>) -> Map<
    Seq<char>,
    CellView,
>
    decreases cs.len(),
{
    if cs.len() == 0 {
        m
    } else {
        merge_spec(merge_each(m, k, cs.drop_last()), k, cs.last())
    }
}

/// `c` competes for key `k`: it is the cell that `m` starts with, or one of
/// the updates of `s`.
pub open spec fn candidate(
    m: Map<Seq<char>, CellView>,
    s: Seq<(Seq<char>, CellView)>,
    k: Seq<char>,
    c: CellView,
) -> bool {
    (m.contains_key(k) && m[k] == c) || s.contains((k, c))
}

/// Competing cells of one key that carry the same `(version, client_id)` stamp
/// are the same cell: a stamp names one write.
pub open spec fn stamps_unique(m: Map<Seq<char>, CellView>, s: Seq<(Seq<char>, CellView)>) -> bool {
    forall|k: Seq<char>, c1: CellView, c2: CellView|
        #![trigger candidate(m, s, k, c1), candidate(m, s, k, c2)]
        candidate(m, s, k, c1) && candidate(m, s, k, c2) && c1.version == c2.version
            && c1.client_id == c2.client_id ==> c1 == c2
}

proof fn lemma_beats_transitive(a: CellView, b: CellView, c: CellView)
    requires
        cell_beats(a, b),
        cell_beats(b, c),
    ensures
        cell_beats(a, c),
{
}

/// What `apply_all` leaves for each key: the key is present iff it was present
/// or updated, and its cell is a competitor that no competitor beats.
proof fn lemma_apply_all_winner(m: Map<Seq<char>, CellView>, s: Seq<(Seq<char>, CellView)>, k: Seq<char>)
    ensures
        apply_all(m, s).contains_key(k) == (m.contains_key(k) || exists|c: CellView| s.contains((k, c))),
        apply_all(m, s).contains_key(k) ==> candidate(m, s, k, apply_all(m, s)[k]),
        apply_all(m, s).contains_key(k) ==> forall|c: CellView|
            #[trigger] candidate(m, s, k, c) ==> !cell_beats(c, apply_all(m, s)[k]),
    decreases s.len(),
{
    if s.len() == 0 {
        assert forall|c: CellView| !s.contains((k, c)) by {}
    } else {
        let p = s.drop_last();
        let u = s.last();
        lemma_apply_all_winner(m, p, k);
        let prev = apply_all(m, p);
        let cur = apply_all(m, s);
        assert(s == p.push(u));
        assert forall|x: (Seq<char>, CellView)| #[trigger] s.contains(x) == (p.contains(x) || x == u) by {
            if s.contains(x) {
                let i = choose|i: int| 0 <= i < s.len() && s[i] == x;
                if i < p.len() {
                    assert(p[i] == x);
                }
            }
            if p.contains(x) {
                let i = choose|i: int| 0 <= i < p.len() && p[i] == x;
                assert(s[i] == x);
            }
            if x == u {
                assert(s[s.len() - 1] == x);
            }
        }
        if u.0 == k {
            assert(s.contains((k, u.1)));
            if !prev.contains_key(k) {
                assert forall|c: CellView| #[trigger] candidate(m, s, k, c) implies !cell_beats(c, cur[k]) by {
                    if p.contains((k, c)) {
                        assert(exists|c2: CellView| p.contains((k, c2)));
                    }
                }
            } else if cell_beats(u.1, prev[k]) {
                assert forall|c: CellView| #[trigger] candidate(m, s, k, c) implies !cell_beats(c, cur[k]) by {
                    if candidate(m, p, k, c) {
                        if cell_beats(c, u.1) {
                            lemma_beats_transitive(c, u.1, prev[k]);
                        }
                    }
                }
            } else {
                assert(candidate(m, p, k, prev[k]));
                assert forall|c: CellView| #[trigger] candidate(m, s, k, c) implies !cell_beats(c, cur[k]) by {
                    if candidate(m, p, k, c) {
                    }
                }
            }
        } else {
            assert(cur.contains_key(k) == prev.contains_key(k));
            assert((exists|c: CellView| s.contains((k, c))) == (exists|c: CellView| p.contains((k, c)))) by {
                if exists|c: CellView| s.contains((k, c)) {
                    let c = choose|c: CellView| s.contains((k, c));
                    assert(p.contains((k, c)));
                }
                if exists|c: CellView| p.contains((k, c)) {
                    let c = choose|c: CellView| p.contains((k, c));
                    assert(s.contains((k, c)));
                }
            }
            if cur.contains_key(k) {
                assert(candidate(m, p, k, prev[k]));
                assert forall|c: CellView| #[trigger] candidate(m, s, k, c) implies !cell_beats(c, cur[k]) by {
                    assert(candidate(m, p, k, c));
                }
            }
        }
    }
}

/// **Convergence.** Two replicas that start from the same table and have been
/// offered the same set of updates, in whatever order and with whatever
/// repetitions, hold the same table; provided that one stamp names one write.
pub proof fn lemma_convergence(
    m: Map<Seq<char>, CellView>,
    s1: Seq<(Seq<char>, CellView)>,
    s2: Seq<(Seq<char>, CellView)>,
)
    requires
        forall|x: (Seq<char>, CellView)| #[trigger] s1.contains(x) == s2.contains(x),
        stamps_unique(m, s1),
    ensures
        apply_all(m, s1) == apply_all(m, s2),
{
    let a = apply_all(m, s1);
    let b = apply_all(m, s2);
    assert forall|k: Seq<char>| #[trigger] a.contains_key(k) == b.contains_key(k) by {
        lemma_apply_all_winner(m, s1, k);
        lemma_apply_all_winner(m, s2, k);
        if exists|c: CellView| s1.contains((k, c)) {
            let c = choose|c: CellView| s1.contains((k, c));
            assert(s2.contains((k, c)));
        }
        if exists|c: CellView| s2.contains((k, c)) {
            let c = choose|c: CellView| s2.contains((k, c));
            assert(s1.contains((k, c)));
        }
    }
    assert forall|k: Seq<char>| a.contains_key(k) implies #[trigger] a[k] == b[k] by {
        lemma_apply_all_winner(m, s1, k);
        lemma_apply_all_winner(m, s2, k);
        let r1 = a[k];
        let r2 = b[k];
        assert(candidate(m, s1, k, r2) == candidate(m, s2, k, r2));
        assert(candidate(m, s1, k, r1) == candidate(m, s2, k, r1));
        assert(!cell_beats(r2, r1));
        assert(!cell_beats(r1, r2));
        assert(r1.version == r2.version && r1.client_id == r2.client_id);
    }
    assert(a =~= b);
}

proof fn lemma_merge_each_as_apply_all(m: Map<Seq<char>, CellView>, k: Seq<char>, cs: Seq<CellView>)
    ensures
        merge_each(m, k, cs) == apply_all(m, cs.map_values(|c: CellView| (k, c))),
    decreases cs.len(),
{
    if cs.len() > 0 {
        lemma_merge_each_as_apply_all(m, k, cs.drop_last());
        assert(cs.map_values(|c: CellView| (k, c)).drop_last() =~= cs.drop_last().map_values(
            |c: CellView| (k, c),
        ));
    }
}

/// **Merge order does not matter.** For one key, offering the same set of
/// candidate cells in any order, with any repetitions, gives the same table;
/// provided that competing cells with equal `(version, client_id)` are equal.
pub proof fn lemma_merge_order_independent(
    m: Map<Seq<char>, CellView>,
    k: Seq<char>,
    cs1: Seq<CellView>,
    cs2: Seq<CellView>,
)
    requires
        forall|c: CellView| #[trigger] cs1.contains(c) == cs2.contains(c),
        forall|c1: CellView, c2: CellView|
            #![trigger cs1.contains(c1), cs1.contains(c2)]
            ((m.contains_key(k) && m[k] == c1) || cs1.contains(c1)) && ((m.contains_key(k) && m[k]
                == c2) || cs1.contains(c2)) && c1.version == c2.version && c1.client_id
                == c2.client_id ==> c1 == c2,
    ensures
        merge_each(m, k, cs1) == merge_each(m, k, cs2),
{
    let f = |c: CellView| (k, c);
    let s1 = cs1.map_values(f);
    let s2 = cs2.map_values(f);
    lemma_merge_each_as_apply_all(m, k, cs1);
    lemma_merge_each_as_apply_all(m, k, cs2);
    assert forall|x: (Seq<char>, CellView)| #[trigger] s1.contains(x) == (x.0 == k && cs1.contains(x.1)) by {
        if s1.contains(x) {
            let i = choose|i: int| 0 <= i < s1.len() && s1[i] == x;
            assert(cs1[i] == x.1);
        }
        if x.0 == k && cs1.contains(x.1) {
            let i = choose|i: int| 0 <= i < cs1.len() && cs1[i] == x.1;
            assert(s1[i] == x);
        }
    }
    assert forall|x: (Seq<char>, CellView)| #[trigger] s2.contains(x) == (x.0 == k && cs2.contains(x.1)) by {
        if s2.contains(x) {
            let i = choose|i: int| 0 <= i < s2.len() && s2[i] == x;
            assert(cs2[i] == x.1);
        }
        if x.0 == k && cs2.contains(x.1) {
            let i = choose|i: int| 0 <= i < cs2.len() && cs2[i] == x.1;
            assert(s2[i] == x);
        }
    }
    assert forall|x: (Seq<char>, CellView)| #[trigger] s1.contains(x) == s2.contains(x) by {
        assert(cs1.contains(x.1) == cs2.contains(x.1));
    }
    assert forall|kk: Seq<char>, c1: CellView, c2: CellView|
        #![trigger candidate(m, s1, kk, c1), candidate(m, s1, kk, c2)]
        candidate(m, s1, kk, c1) && candidate(m, s1, kk, c2) && c1.version == c2.version
            && c1.client_id == c2.client_id implies c1 == c2 by {
        assert(s1.contains((kk, c1)) ==> cs1.contains(c1));
        assert(s1.contains((kk, c2)) ==> cs1.contains(c2));
        if kk != k {
            assert(!s1.contains((kk, c1)));
            assert(!s1.contains((kk, c2)));
        }
    }
    lemma_convergence(m, s1, s2);
}

/// **Tie-break.** On equal versions the update is taken iff its owner id is
/// lower; an equal owner id and version leaves the table as it was.
pub proof fn lemma_tie_break(m: Map<Seq<char>, CellView>, k: Seq<char>, c: CellView)
    requires
        m.contains_key(k),
        c.version == m[k].version,
    ensures
        c.client_id < m[k].client_id ==> merge_spec(m, k, c) == m.insert(k, c),
        c.client_id >= m[k].client_id ==> merge_spec(m, k, c) == m,
{
}

/// Offering the same update twice has the effect of offering it once.
pub proof fn lemma_merge_idempotent(m: Map<Seq<char>, CellView>, k: Seq<char>, c: CellView)
    ensures
        merge_spec(merge_spec(m, k, c), k, c) == merge_spec(m, k, c),
{
}

/// A merge never moves any key's `(version, client_id)` stamp backwards.
pub proof fn lemma_merge_never_regresses(m: Map<Seq<char>, CellView>, k: Seq<char>, c: CellView, j: Seq<char>)
    requires
        m.contains_key(j),
    ensures
        merge_spec(m, k, c).contains_key(j),
        merge_spec(m, k, c)[j] == m[j] || cell_beats(merge_spec(m, k, c)[j], m[j]),
{
}

/// A local write has the effect of merging the cell it produces, which always
/// wins: so local writes take part in convergence as ordinary updates.
pub proof fn lemma_local_write_is_merge(m: Map<Seq<char>, CellView>, k: Seq<char>, v: Seq<char>, me: u32)
    requires
        m.contains_key(k) ==> m[k].version < u64::MAX,
    ensures
        write_local_spec(m, k, v, me) == merge_spec(m, k, local_cell(m, k, v, me)),
        m.contains_key(k) ==> beats(
            local_cell(m, k, v, me).version,
            me,
            m[k].version,
            m[k].client_id,
        ),
{
}

} // verus!
