use vstd::prelude::*;

use crate::models::Node;

verus! {

/// What an upsert does to the store's state: the slot for `id` is
/// overwritten with a record built from the new reading; every other slot is
/// untouched. Inserting and updating are the same operation.
pub open spec fn upsert_spec(s: Seq<Option<Node>>, id: int, avg_speed: i32, timestamp: i64) -> Seq<
    Option<Node>,
> {
    s.update(id, Some(Node { id: id as i32, avg_speed, timestamp }))
}

/// The ordered snapshot a store state yields: the records of all segments
/// that have reported at least once, in increasing slot (= id) order.
pub open spec fn snapshot_spec(s: Seq<Option<Node>>) -> Seq<Node>
    decreases s.len(),
{
    if s.len() == 0 {
        Seq::empty()
    } else {
        match s.last() {
            Some(n) => snapshot_spec(s.drop_last()).push(n),
            None => snapshot_spec(s.drop_last()),
        }
    }
}

/// A store state is well formed when each occupied slot holds a record whose
/// id equals the slot index, and the id space fits the record's id type.
pub open spec fn store_wf(s: Seq<Option<Node>>) -> bool {
    &&& s.len() <= i32::MAX
    &&& forall|i: int|
        0 <= i < s.len() ==> (#[trigger] s[i] matches Some(n) ==> n.id == i)
}

/// The segment store: durable keyed state, one current record per segment
/// id, ids dense in `0..N`. This is the in-memory model of the store's
/// contract; the process persists the same state through its database and
/// hands this crate the resulting snapshots.
pub struct SegmentStore {
    slots: Vec<Option<Node>>,
}

impl View for SegmentStore {
    type V = Seq<Option<Node>>;

    closed spec fn view(&self) -> Seq<Option<Node>> {
        self.slots@
    }
}

impl SegmentStore {
    pub open spec fn wf(&self) -> bool {
        store_wf(self@)
    }

    /// An empty store for segment ids `0..n`: no segment has reported yet.
    pub fn new(n: usize) -> (r: SegmentStore)
        requires
            n <= i32::MAX,
        ensures
            r.wf(),
            r@.len() == n,
            forall|i: int| 0 <= i < n ==> r@[i] is None,
    {
        let mut slots: Vec<Option<Node>> = Vec::new();
        let mut i: usize = 0;
        while i < n
            invariant
                i <= n,
                slots@.len() == i,
                forall|j: int| 0 <= j < i ==> slots@[j] is None,
            decreases n - i,
        {
            slots.push(None);
            i = i + 1;
        }
        SegmentStore { slots }
    }

    /// The number of segment ids the store covers.
    pub fn len(&self) -> (r: usize)
        ensures
            r == self@.len(),
    {
        self.slots.len()
    }

    /// Insert or overwrite the record for `id`. A reading for an id that
    /// already has a record replaces it; nothing is appended and no other
    /// slot changes.
    pub fn upsert(&mut self, id: usize, avg_speed: i32, timestamp: i64)
        requires
            old(self).wf(),
            id < old(self)@.len(),
        ensures
            final(self).wf(),
            final(self)@ == upsert_spec(old(self)@, id as int, avg_speed, timestamp),
    {
        let node = Node { id: id as i32, avg_speed, timestamp };
        self.slots.set(id, Some(node));
    }

    /// A consistent snapshot of every known segment's current record,
    /// ordered by segment id.
    pub fn get_all(&self) -> (r: Vec<Node>)
        ensures
            r@ == snapshot_spec(self@),
    {
        let mut out: Vec<Node> = Vec::new();
        let mut i: usize = 0;
        while i < self.slots.len()
            invariant
                i <= self.slots@.len(),
                out@ == snapshot_spec(self.slots@.take(i as int)),
            decreases self.slots@.len() - i,
        {
            proof {
                assert(self.slots@.take(i + 1).drop_last() =~= self.slots@.take(i as int));
                assert(self.slots@.take(i + 1).last() == self.slots@[i as int]);
            }
            match self.slots[i] {
                Some(node) => out.push(node),
                None => {},
            }
            i = i + 1;
        }
        proof {
            assert(self.slots@.take(self.slots@.len() as int) =~= self.slots@);
        }
        out
    }
}

/// Idempotence: applying the same upsert twice yields the same store state
/// as applying it once.
pub proof fn lemma_upsert_idempotent(s: Seq<Option<Node>>, id: int, avg_speed: i32, timestamp: i64)
    requires
        0 <= id < s.len(),
    ensures
        upsert_spec(upsert_spec(s, id, avg_speed, timestamp), id, avg_speed, timestamp)
            == upsert_spec(s, id, avg_speed, timestamp),
{
    assert(upsert_spec(upsert_spec(s, id, avg_speed, timestamp), id, avg_speed, timestamp)
        =~= upsert_spec(s, id, avg_speed, timestamp));
}

/// Upsert ordering: of two readings for the same segment id applied in
/// order, the later one is the store's final value for that id, and the
/// earlier one leaves no trace.
pub proof fn lemma_upsert_last_wins(
    s: Seq<Option<Node>>,
    id: int,
    v1: i32,
    t1: i64,
    v2: i32,
    t2: i64,
)
    requires
        0 <= id < s.len(),
    ensures
        upsert_spec(upsert_spec(s, id, v1, t1), id, v2, t2) == upsert_spec(s, id, v2, t2),
{
    assert(upsert_spec(upsert_spec(s, id, v1, t1), id, v2, t2) =~= upsert_spec(s, id, v2, t2));
}

/// Upserts for distinct segment ids commute: the store guarantees
/// per-segment ordering only, and needs no ordering across segments.
pub proof fn lemma_upsert_distinct_segments_commute(
    s: Seq<Option<Node>>,
    id1: int,
    v1: i32,
    t1: i64,
    id2: int,
    v2: i32,
    t2: i64,
)
    requires
        0 <= id1 < s.len(),
        0 <= id2 < s.len(),
        id1 != id2,
    ensures
        upsert_spec(upsert_spec(s, id1, v1, t1), id2, v2, t2) == upsert_spec(
            upsert_spec(s, id2, v2, t2),
            id1,
            v1,
            t1,
        ),
{
    assert(upsert_spec(upsert_spec(s, id1, v1, t1), id2, v2, t2) =~= upsert_spec(
        upsert_spec(s, id2, v2, t2),
        id1,
        v1,
        t1,
    ));
}

/// Every record in a snapshot comes from an occupied slot, and every
/// occupied slot appears in the snapshot.
pub proof fn lemma_snapshot_membership(s: Seq<Option<Node>>, n: Node)
    ensures
        snapshot_spec(s).contains(n) <==> exists|i: int| 0 <= i < s.len() && s[i] == Some(n),
    decreases s.len(),
{
    if s.len() == 0 {
    } else {
        lemma_snapshot_membership(s.drop_last(), n);
        if snapshot_spec(s).contains(n) {
            match s.last() {
                Some(m) => {
                    if m == n {
                        assert(s[s.len() - 1] == Some(n));
                    } else {
                        assert(snapshot_spec(s.drop_last()).contains(n)) by {
                            let j = choose|j: int|
                                0 <= j < snapshot_spec(s).len() && snapshot_spec(s)[j] == n;
                            assert(snapshot_spec(s.drop_last())[j] == n);
                        }
                        let i = choose|i: int|
                            0 <= i < s.drop_last().len() && s.drop_last()[i] == Some(n);
                        assert(s[i] == Some(n));
                    }
                },
                None => {
                    let i = choose|i: int|
                        0 <= i < s.drop_last().len() && s.drop_last()[i] == Some(n);
                    assert(s[i] == Some(n));
                },
            }
        }
        if exists|i: int| 0 <= i < s.len() && s[i] == Some(n) {
            let i = choose|i: int| 0 <= i < s.len() && s[i] == Some(n);
            if i == s.len() - 1 {
                assert(s.last() == Some(n));
                assert(snapshot_spec(s).last() == n);
            } else {
                assert(s.drop_last()[i] == Some(n));
                assert(snapshot_spec(s.drop_last()).contains(n));
                let j = choose|j: int|
                    0 <= j < snapshot_spec(s.drop_last()).len() && snapshot_spec(s.drop_last())[j]
                        == n;
                match s.last() {
                    Some(m) => { assert(snapshot_spec(s)[j] == n) },
                    None => { assert(snapshot_spec(s)[j] == n) },
                }
            }
        }
    }
}

/// Round trip: after a reading is upserted for a segment, the snapshot read
/// back holds exactly that record for the segment — it is present, and no
/// other record with that id exists.
pub proof fn lemma_round_trip(s: Seq<Option<Node>>, id: int, avg_speed: i32, timestamp: i64)
    requires
        store_wf(s),
        0 <= id < s.len(),
    ensures
        ({
            let after = snapshot_spec(upsert_spec(s, id, avg_speed, timestamp));
            let rec = Node { id: id as i32, avg_speed, timestamp };
            &&& after.contains(rec)
            &&& forall|j: int| 0 <= j < after.len() && (#[trigger] after[j]).id == id ==> after[j] == rec
        }),
{
    let s2 = upsert_spec(s, id, avg_speed, timestamp);
    let rec = Node { id: id as i32, avg_speed, timestamp };
    assert(s2[id] == Some(rec));
    lemma_snapshot_membership(s2, rec);
    let after = snapshot_spec(s2);
    assert forall|j: int| 0 <= j < after.len() && (#[trigger] after[j]).id == id implies after[j]
        == rec by {
        lemma_snapshot_membership(s2, after[j]);
        let i = choose|i: int| 0 <= i < s2.len() && s2[i] == Some(after[j]);
        if i != id {
            assert(s[i] == Some(after[j]));
            assert(after[j].id == i);
        }
    }
}

} // verus!
