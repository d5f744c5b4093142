//! Tracks inode lifecycles across records whose inode identifiers may be
//! reused after deletion. Live entries form the active set, with at most
//! one entry per identifier; an entry moves to the append-only history
//! when its inode is deleted or when the scan ends.

use vstd::prelude::*;

use crate::sat_add_u64;

verus! {

/// Struct to hold inode information
/// Note that the inode is not unique, as it may be reused after deletion,
/// so a single map keyed by id cannot store the history. The `Inodes`
/// struct manages the active/historical split.
#[derive(Clone, Copy, Debug)]
pub struct Inode {
    /// The inode number
    pub inode: u64,
    /// The timestamp the inode, if known, was created
    pub created: Option<i64>,
    /// The timestamp the inode, if known, was deleted
    pub deleted: Option<i64>,
    /// The last known length of the inode
    pub last_known_length: u64,
    /// The amount of data written to the inode
    /// Note that truncations are not counted
    pub written: u64,
}

impl Default for Inode {
    /// An empty entry: no timestamps, zero length, nothing written.
    fn default() -> (r: Self)
        ensures
            r == (Inode {
                inode: 0,
                created: None,
                deleted: None,
                last_known_length: 0,
                written: 0,
            }),
    {
        Inode { inode: 0, created: None, deleted: None, last_known_length: 0, written: 0 }
    }
}

/// The first position in `act` holding `id`, if any.
pub open spec fn find_id(act: Seq<Inode>, id: u64) -> Option<int>
    decreases act.len(),
{
    if act.len() == 0 {
        None
    } else if act[0].inode == id {
        Some(0int)
    } else {
        match find_id(act.drop_first(), id) {
            Some(i) => Some(i + 1),
            None => None,
        }
    }
}

pub proof fn lemma_find_id(act: Seq<Inode>, id: u64)
    ensures
        match find_id(act, id) {
            Some(i) => 0 <= i < act.len() && act[i].inode == id && (forall|j: int|
                0 <= j < i ==> act[j].inode != id),
            None => forall|j: int| 0 <= j < act.len() ==> act[j].inode != id,
        },
    decreases act.len(),
{
    if act.len() > 0 && act[0].inode != id {
        lemma_find_id(act.drop_first(), id);
        assert(forall|j: int| 1 <= j < act.len() ==> act[j] == act.drop_first()[j - 1]);
    }
}

/// A fresh entry created by a `Create` event.
pub open spec fn created_entry(id: u64, ts: Option<i64>) -> Inode {
    Inode { inode: id, created: ts, deleted: None, last_known_length: 0, written: 0 }
}

/// The active set after a `Create` event: a new entry unless one is live.
pub open spec fn spec_append(act: Seq<Inode>, id: u64, ts: Option<i64>) -> Seq<Inode> {
    if find_id(act, id) is Some {
        act
    } else {
        act.push(created_entry(id, ts))
    }
}

/// The active set and history after a `Delete` event: a live entry moves
/// to history unchanged; with no live entry, a record holding only the
/// deletion timestamp is appended to history.
pub open spec fn spec_delete(act: Seq<Inode>, all: Seq<Inode>, id: u64, ts: Option<i64>) -> (
    Seq<Inode>,
    Seq<Inode>,
) {
    match find_id(act, id) {
        Some(i) => (act.remove(i), all.push(act[i])),
        None => (
            act,
            all.push(
                Inode { inode: id, created: None, deleted: ts, last_known_length: 0, written: 0 },
            ),
        ),
    }
}

/// One length update applied to a live entry: a first length counts
/// whole, a growth counts its delta, a truncation counts nothing; the
/// last known length always follows the update.
pub open spec fn upd_entry(r: Inode, length: u64) -> Inode {
    Inode {
        written: if r.last_known_length == 0 {
            sat_add_u64(r.written, length)
        } else if length > r.last_known_length {
            sat_add_u64(r.written, (length - r.last_known_length) as u64)
        } else {
            r.written
        },
        last_known_length: length,
        ..r
    }
}

/// The active set after an `UpdateLength` event: the live entry is
/// updated; with no live entry, a new one starts at this length with
/// nothing counted as written.
pub open spec fn spec_update(act: Seq<Inode>, id: u64, length: u64) -> Seq<Inode> {
    match find_id(act, id) {
        Some(i) => act.update(i, upd_entry(act[i], length)),
        None => act.push(
            Inode {
                inode: id,
                created: None,
                deleted: None,
                last_known_length: length,
                written: 0,
            },
        ),
    }
}

/// Struct to manage currently active and historical inodes
#[derive(Debug)]
pub struct Inodes {
    /// Vector to hold all historical inodes and, if drain_active is
    /// called, all active inodes
    pub all: Vec<Inode>,
    /// The currently active inodes, at most one per inode id
    active: Vec<Inode>,
}

impl Inodes {
    /// The history, oldest entry first.
    pub closed spec fn all_v(self) -> Seq<Inode> {
        self.all@
    }

    /// The history vector, for callers that fold over it.
    pub fn history(&self) -> (r: &Vec<Inode>)
        ensures
            r@ == self.all_v(),
    {
        &self.all
    }

    /// The active entries, in order of first sight.
    pub closed spec fn active_v(self) -> Seq<Inode> {
        self.active@
    }

    /// At most one active entry per inode id.
    pub open spec fn wf(self) -> bool {
        forall|i: int, j: int|
            0 <= i < j < self.active_v().len() ==> (#[trigger] self.active_v()[i]).inode != (
            #[trigger] self.active_v()[j]).inode
    }

    /// Create a new Inodes struct with empty history and no active entry
    pub fn new() -> (r: Self)
        ensures
            r.all_v() == Seq::<Inode>::empty(),
            r.active_v() == Seq::<Inode>::empty(),
            r.wf(),
    {
        Self::default()
    }

    /// The position of the live entry for `inode`, if any.
    fn find_active(&self, inode: u64) -> (r: Option<usize>)
        ensures
            match r {
                Some(i) => find_id(self.active_v(), inode) == Some(i as int),
                None => find_id(self.active_v(), inode) is None,
            },
    {
        let n = self.active.len();
        let mut i: usize = 0;
        while i < n
            invariant
                n == self.active_v().len(),
                0 <= i <= n,
                forall|j: int| 0 <= j < i ==> (#[trigger] self.active_v()[j]).inode != inode,
            decreases n - i,
        {
            if self.active[i].inode == inode {
                proof {
                    lemma_find_id(self.active_v(), inode);
                }
                return Some(i);
            }
            i += 1;
        }
        proof {
            lemma_find_id(self.active_v(), inode);
        }
        None
    }

    /// Append an inode to the active set, unless one is already live
    pub fn append(&mut self, inode: u64, timestamp: Option<i64>)
        requires
            old(self).wf(),
        ensures
            final(self).wf(),
            final(self).active_v() == spec_append(old(self).active_v(), inode, timestamp),
            final(self).all_v() == old(self).all_v(),
    {
        proof {
            lemma_find_id(self.active_v(), inode);
        }
        match self.find_active(inode) {
            Some(_) => (),
            None => {
                self.active.push(
                    Inode {
                        inode,
                        created: timestamp,
                        deleted: None,
                        last_known_length: 0,
                        written: 0,
                    },
                );
            },
        }
    }

    /// Remove an inode from the active set and append it to the history
    pub fn delete(&mut self, inode: u64, timestamp: Option<i64>)
        requires
            old(self).wf(),
        ensures
            final(self).wf(),
            (final(self).active_v(), final(self).all_v()) == spec_delete(
                old(self).active_v(),
                old(self).all_v(),
                inode,
                timestamp,
            ),
    {
        proof {
            lemma_find_id(self.active_v(), inode);
        }
        match self.find_active(inode) {
            Some(i) => {
                let deleted_inode = self.active.remove(i);
                self.all.push(deleted_inode);
            },
            None => {
                self.all.push(
                    Inode {
                        inode,
                        created: None,
                        deleted: timestamp,
                        last_known_length: 0,
                        written: 0,
                    },
                );
            },
        }
    }

    /// Update the length of an inode and the amount of data written to it.
    pub fn update_length(&mut self, inode: u64, length: u64)
        requires
            old(self).wf(),
        ensures
            final(self).wf(),
            final(self).active_v() == spec_update(old(self).active_v(), inode, length),
            final(self).all_v() == old(self).all_v(),
    {
        proof {
            lemma_find_id(self.active_v(), inode);
        }
        match self.find_active(inode) {
            Some(i) => {
                let entry = self.active[i];
                self.active[i] = upd_entry_exec(entry, length);
            },
            None => {
                self.active.push(
                    Inode {
                        inode,
                        created: None,
                        deleted: None,
                        last_known_length: length,
                        written: 0,
                    },
                );
            },
        }
    }

    /// Drain the active set and append every entry to the history
    pub fn drain_active(&mut self)
        requires
            old(self).wf(),
        ensures
            final(self).wf(),
            final(self).all_v() == old(self).all_v() + old(self).active_v(),
            final(self).active_v() == Seq::<Inode>::empty(),
    {
        let n = self.active.len();
        let mut i: usize = 0;
        while i < n
            invariant
                n == self.active_v().len(),
                0 <= i <= n,
                self.active_v() == old(self).active_v(),
                self.wf(),
                self.all_v() == old(self).all_v() + old(self).active_v().take(i as int),
            decreases n - i,
        {
            let entry = self.active[i];
            self.all.push(entry);
            proof {
                assert(old(self).all_v() + old(self).active_v().take(i + 1) =~= (old(self).all_v()
                    + old(self).active_v().take(i as int)).push(entry));
            }
            i += 1;
        }
        self.active.clear();
        proof {
            assert(old(self).active_v().take(n as int) =~= old(self).active_v());
        }
    }
}

impl Default for Inodes {
    /// Empty history and no active entry.
    fn default() -> (r: Self)
        ensures
            r.all_v() == Seq::<Inode>::empty(),
            r.active_v() == Seq::<Inode>::empty(),
            r.wf(),
    {
        Inodes { all: Vec::new(), active: Vec::new() }
    }
}

/// One length update, as `upd_entry` describes.
fn upd_entry_exec(r: Inode, length: u64) -> (u: Inode)
    ensures
        u == upd_entry(r, length),
{
    let written = if r.last_known_length == 0 {
        r.written.saturating_add(length)
    } else if length > r.last_known_length {
        r.written.saturating_add(length - r.last_known_length)
    } else {
        r.written
    };
    Inode { written, last_known_length: length, ..r }
}

/// A truncation — a length update below the last known length — leaves
/// the written total untouched.
pub proof fn lemma_truncation_writes_nothing(r: Inode, length: u64)
    requires
        length < r.last_known_length,
    ensures
        upd_entry(r, length).written == r.written,
{
}

/// For an entry created fresh and then updated with strictly increasing
/// lengths `l0 < l1 < l2`, the accumulated written total equals the last
/// length: the first update counts whole, later ones count their deltas.
pub proof fn lemma_increasing_lengths_accumulate(
    act: Seq<Inode>,
    id: u64,
    ts: Option<i64>,
    l0: u64,
    l1: u64,
    l2: u64,
)
    requires
        find_id(act, id) is None,
        l0 < l1 < l2,
    ensures
        ({
            let a = spec_update(
                spec_update(spec_update(spec_append(act, id, ts), id, l0), id, l1),
                id,
                l2,
            );
            &&& find_id(a, id) matches Some(i)
            &&& a[find_id(a, id)->0].written == l2
        }),
{
    let a0 = spec_append(act, id, ts);
    lemma_find_id(act, id);
    lemma_find_id_push(act, id, created_entry(id, ts));
    let k = act.len() as int;
    assert(a0[k].inode == id);
    let a1 = spec_update(a0, id, l0);
    lemma_find_id_update(a0, k, id, l0);
    let a2 = spec_update(a1, id, l1);
    lemma_find_id_update(a1, k, id, l1);
    let a3 = spec_update(a2, id, l2);
    lemma_find_id_update(a2, k, id, l2);
    assert(a1[k].written == l0 && a1[k].last_known_length == l0);
    assert(a2[k].written == l1 && a2[k].last_known_length == l1);
    assert(a3[k].written == l2);
}

/// Pushing an entry whose id is absent puts it at the end of the search.
proof fn lemma_find_id_push(act: Seq<Inode>, id: u64, entry: Inode)
    requires
        find_id(act, id) is None,
        entry.inode == id,
    ensures
        find_id(act.push(entry), id) == Some(act.len() as int),
{
    lemma_find_id(act, id);
    lemma_find_id(act.push(entry), id);
    match find_id(act.push(entry), id) {
        Some(i) => {
            assert(act.push(entry)[act.len() as int] == entry);
            if i < act.len() {
                assert(act.push(entry)[i] == act[i]);
            }
        },
        None => {
            assert(act.push(entry)[act.len() as int] == entry);
        },
    }
}

/// Updating the entry at the found position keeps it the found position.
proof fn lemma_find_id_update(act: Seq<Inode>, k: int, id: u64, length: u64)
    requires
        find_id(act, id) == Some(k),
    ensures
        spec_update(act, id, length) == act.update(k, upd_entry(act[k], length)),
        find_id(act.update(k, upd_entry(act[k], length)), id) == Some(k),
{
    lemma_find_id(act, id);
    let a = act.update(k, upd_entry(act[k], length));
    lemma_find_id(a, id);
    assert(a[k].inode == id);
    match find_id(a, id) {
        Some(i) => {
            if i < k {
                assert(a[i] == act[i]);
            }
        },
        None => {
            assert(a[k].inode == id);
        },
    }
}

/// An inode id deleted and then reused yields two independent entries:
/// the deleted lifetime sits in history with its own written total — and,
/// having been live, keeps the deletion timestamp it already had, namely
/// none — while the new lifetime starts over from zero.
pub proof fn lemma_reused_id_is_independent(
    act: Seq<Inode>,
    all: Seq<Inode>,
    id: u64,
    ts1: i64,
    td: i64,
    ts2: i64,
    l1: u64,
    l2: u64,
)
    requires
        find_id(act, id) is None,
        l1 > 0,
        l2 > 0,
    ensures
        ({
            let a1 = spec_update(spec_append(act, id, Some(ts1)), id, l1);
            let (a2, all2) = spec_delete(a1, all, id, Some(td));
            let first = Inode {
                inode: id,
                created: Some(ts1),
                deleted: None,
                last_known_length: l1,
                written: l1,
            };
            let a3 = spec_update(spec_append(a2, id, Some(ts2)), id, l2);
            &&& all2 == all.push(first)
            &&& find_id(a2, id) is None
            &&& find_id(a3, id) matches Some(j)
            &&& a3[find_id(a3, id)->0].written == l2
            &&& a3[find_id(a3, id)->0].created == Some(ts2)
        }),
{
    let k = act.len() as int;
    lemma_find_id(act, id);
    lemma_find_id_push(act, id, created_entry(id, Some(ts1)));
    let a0 = spec_append(act, id, Some(ts1));
    lemma_find_id_update(a0, k, id, l1);
    let a1 = spec_update(a0, id, l1);
    assert(a1[k] == Inode {
        inode: id,
        created: Some(ts1),
        deleted: None,
        last_known_length: l1,
        written: l1,
    });
    let (a2, all2) = spec_delete(a1, all, id, Some(td));
    assert(a1.remove(k) =~= act);
    assert(a2 == a1.remove(k));
    lemma_find_id_push(a2, id, created_entry(id, Some(ts2)));
    let a3h = spec_append(a2, id, Some(ts2));
    lemma_find_id_update(a3h, k, id, l2);
    let a3 = spec_update(a3h, id, l2);
    assert(a3[k].written == l2);
    assert(a3[k].created == Some(ts2));
}

} // verus!
