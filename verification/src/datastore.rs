//! The dedup store's in-memory mirror.
//!
//! The durable artifact is a text file of one alert id per line. The
//! mirror is rebuilt from those lines at startup and grows only when a
//! line has been durably appended; reading and writing the file itself
//! happens outside the library, which hands the lines in as plain
//! values.

use vstd::prelude::*;

use crate::bushfire::EntryId;
use crate::text::str_eq;

verus! {

/// The ids already notified, as loaded into memory.
pub type Records = Vec<EntryId>;

/// The in-memory mirror of the durable record of notified alerts.
pub struct Datastore {
    records: Records,
}

/// The set of ids held by a run of records.
pub open spec fn ids_set(rs: Seq<EntryId>) -> Set<Seq<char>>
    decreases rs.len(),
{
    if rs.len() == 0 {
        Set::<Seq<char>>::empty()
    } else {
        ids_set(rs.drop_last()).insert(rs.last()@)
    }
}

pub open spec fn lines_view(lines: Seq<String>) -> Seq<Seq<char>> {
    lines.map_values(|s: String| s@)
}

/// The ids that replaying the artifact's lines yields: one id per
/// non-empty line.
pub open spec fn loaded_set(lines: Seq<Seq<char>>) -> Set<Seq<char>>
    decreases lines.len(),
{
    if lines.len() == 0 {
        Set::<Seq<char>>::empty()
    } else {
        let rest = loaded_set(lines.drop_last());
        if lines.last().len() > 0 {
            rest.insert(lines.last())
        } else {
            rest
        }
    }
}

proof fn lemma_ids_set_contains(rs: Seq<EntryId>, x: Seq<char>)
    ensures
        ids_set(rs).contains(x) <==> exists|i: int| 0 <= i < rs.len() && rs[i]@ == x,
    decreases rs.len(),
{
    if rs.len() > 0 {
        lemma_ids_set_contains(rs.drop_last(), x);
        if rs.last()@ == x {
            assert(rs[rs.len() - 1]@ == x);
        } else if ids_set(rs).contains(x) {
            let i = choose|i: int| 0 <= i < rs.drop_last().len() && rs.drop_last()[i]@ == x;
            assert(rs[i]@ == x);
        } else if exists|i: int| 0 <= i < rs.len() && rs[i]@ == x {
            let i = choose|i: int| 0 <= i < rs.len() && rs[i]@ == x;
            assert(rs.drop_last()[i]@ == x);
        }
    }
}

impl View for Datastore {
    type V = Set<Seq<char>>;

    closed spec fn view(&self) -> Set<Seq<char>> {
        ids_set(self.records@)
    }
}

impl Datastore {
    /// Build the mirror from the artifact's lines; `None` stands for an
    /// artifact that does not exist yet, which is an empty store.
    pub fn new(lines: Option<Vec<String>>) -> (r: Datastore)
        ensures
            r@ == match lines {
                Some(ls) => loaded_set(lines_view(ls@)),
                None => Set::<Seq<char>>::empty(),
            },
    {
        match lines {
            Some(ls) => Datastore { records: Self::load(ls) },
            None => Datastore { records: Vec::new() },
        }
    }

    /// Replay the artifact's lines: one id per line, empty lines passed
    /// over.
    pub fn load(lines: Vec<String>) -> (r: Records)
        ensures
            ids_set(r@) == loaded_set(lines_view(lines@)),
    {
        let ghost lv = lines_view(lines@);
        let mut records: Records = Vec::new();
        let mut k: usize = 0;
        proof {
            assert(lv.take(0) =~= Seq::<Seq<char>>::empty());
        }
        while k < lines.len()
            invariant
                0 <= k <= lines@.len(),
                lv == lines_view(lines@),
                lv.len() == lines@.len(),
                ids_set(records@) == loaded_set(lv.take(k as int)),
            decreases lines@.len() - k,
        {
            proof {
                assert(lv[k as int] == lines@[k as int]@);
                assert(lv.take(k + 1).drop_last() =~= lv.take(k as int));
                assert(lv.take(k + 1).last() == lv[k as int]);
            }
            let l = &lines[k];
            if !l.as_str().is_empty() {
                let ghost pre = records@;
                records.push(EntryId(l.clone()));
                proof {
                    assert(records@.drop_last() =~= pre);
                }
            }
            k += 1;
        }
        proof {
            assert(lv.take(k as int) =~= lv);
        }
        records
    }

    /// Whether `entry` has already been notified, by the mirror alone.
    pub fn contains(&self, entry: &EntryId) -> (r: bool)
        ensures
            r == self@.contains(entry@),
    {
        let n = self.records.len();
        let mut i: usize = 0;
        while i < n
            invariant
                0 <= i <= n,
                n == self.records@.len(),
                forall|j: int| 0 <= j < i ==> self.records@[j]@ != entry@,
            decreases n - i,
        {
            if str_eq(self.records[i].0.as_str(), entry.0.as_str()) {
                proof {
                    lemma_ids_set_contains(self.records@, entry@);
                }
                return true;
            }
            i += 1;
        }
        proof {
            lemma_ids_set_contains(self.records@, entry@);
        }
        false
    }

    /// Record one delivery. `stored` says whether the line was durably
    /// appended to the artifact; only then does the id enter the
    /// mirror, so that a failed write leaves the id "unseen" and the
    /// alert eligible for re-notification.
    ///
    /// Ids must not contain newlines: the artifact holds one per line.
    pub fn append(&mut self, record: EntryId, stored: bool)
        requires
            !record@.contains('\n'),
        ensures
            stored ==> final(self)@ == old(self)@.insert(record@),
            !stored ==> final(self)@ == old(self)@,
    {
        if stored {
            let ghost pre = self.records@;
            self.records.push(record);
            proof {
                assert(self.records@.drop_last() =~= pre);
            }
        }
    }
}

/// Replaying an artifact extended by one appended id yields the loaded
/// set of the shorter artifact plus that id: the append/load round
/// trip, line by line.
pub proof fn lemma_append_then_load(lines: Seq<Seq<char>>, id: Seq<char>)
    requires
        id.len() > 0,
    ensures
        loaded_set(lines.push(id)) == loaded_set(lines).insert(id),
{
    assert(lines.push(id).drop_last() =~= lines);
}

} // verus!
