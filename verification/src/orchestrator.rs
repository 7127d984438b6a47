//! The Poll Orchestrator's decisions: the fixed poll cadence, what one
//! cycle does with the fetch outcome, and the dedup plan. The loop that
//! sleeps, fetches and posts runs outside the library and hands the
//! outcomes in as plain values.

use vstd::prelude::*;
use vstd::string::StringExecFns;

use crate::bushfire::{
    check, entries_of, entries_view, near_filter, spec_message, BushfireError, Entry, EntryView,
};
use crate::datastore::Datastore;
use crate::geo::GeoPoint;
use crate::xml::xml_nodes_of;

verus! {

/// Seconds between polls of the feed.
pub const POLL_SECONDS: u32 = 300;

/// The fixed-cadence timer, advanced once per waited second. A fresh
/// schedule is due at once, so the first poll happens on startup.
pub struct PollSchedule {
    waited: u32,
}

impl PollSchedule {
    #[verifier::type_invariant]
    spec fn wf(self) -> bool {
        self.waited <= POLL_SECONDS
    }

    pub closed spec fn waited(&self) -> u32 {
        self.waited
    }

    pub fn new() -> (s: PollSchedule)
        ensures
            s.waited() == POLL_SECONDS,
    {
        PollSchedule { waited: POLL_SECONDS }
    }

    /// One second has passed; the poll is due when a full cadence has
    /// been waited out, and the wait then starts over.
    pub fn tick(&mut self) -> (due: bool)
        ensures
            due == (old(self).waited() + 1 >= POLL_SECONDS),
            due ==> final(self).waited() == 0,
            !due ==> final(self).waited() == old(self).waited() + 1,
    {
        proof {
            use_type_invariant(&*self);
        }
        if self.waited >= POLL_SECONDS - 1 {
            self.waited = 0;
            true
        } else {
            self.waited = self.waited + 1;
            false
        }
    }
}

// ---------------------------------------------------------------------------
// One poll cycle
// ---------------------------------------------------------------------------

/// The entries of one cycle that the Dispatcher must be invoked for:
/// those whose id the store has not recorded, in document order.
pub open spec fn spec_plan_upto(es: Seq<EntryView>, store: Set<Seq<char>>, k: int) -> Seq<
    EntryView,
>
    decreases k,
{
    if k <= 0 {
        Seq::<EntryView>::empty()
    } else {
        let pre = spec_plan_upto(es, store, k - 1);
        if !store.contains(es[k - 1].id) {
            pre.push(es[k - 1])
        } else {
            pre
        }
    }
}

pub open spec fn spec_plan(es: Seq<EntryView>, store: Set<Seq<char>>) -> Seq<EntryView> {
    spec_plan_upto(es, store, es.len() as int)
}

/// Keep the entries whose id the store has not recorded yet, in order.
pub fn entries_to_notify(store: &Datastore, entries: Vec<Entry>) -> (r: Vec<Entry>)
    ensures
        entries_view(r@) == spec_plan(entries_view(entries@), store@),
{
    let ghost all = entries_view(entries@);
    let mut v = entries;
    let mut out: Vec<Entry> = Vec::new();
    let mut k: usize = 0;
    let total = v.len();
    proof {
        assert(all.len() == total as int);
        assert(entries_view(v@) =~= all.skip(0));
    }
    while v.len() > 0
        invariant
            0 <= k,
            k + v@.len() == all.len(),
            all.len() <= usize::MAX,
            entries_view(v@) == all.skip(k as int),
            entries_view(out@) == spec_plan_upto(all, store@, k as int),
        decreases v@.len(),
    {
        let ghost prev = v@;
        let e = v.remove(0);
        proof {
            assert(entries_view(prev)[0] == prev[0]@);
            assert(e@ == all.skip(k as int)[0]);
            assert(e@ == all[k as int]);
            assert(v@ =~= prev.skip(1));
            assert(entries_view(v@) =~= all.skip(k + 1)) by {
                assert forall|m: int| 0 <= m < v@.len() implies entries_view(v@)[m] == all.skip(
                    k + 1,
                )[m] by {
                    assert(entries_view(v@)[m] == v@[m]@);
                    assert(v@[m] == prev[m + 1]);
                    assert(entries_view(prev)[m + 1] == prev[m + 1]@);
                    assert(entries_view(prev)[m + 1] == all.skip(k as int)[m + 1]);
                    assert(all.skip(k as int)[m + 1] == all[k + 1 + m]);
                    assert(all.skip(k + 1)[m] == all[k + 1 + m]);
                }
            }
        }
        if !store.contains(&e.id) {
            proof {
                assert(entries_view(out@).push(e@) =~= entries_view(out@.push(e)));
            }
            out.push(e);
        }
        k += 1;
    }
    out
}

/// What one poll cycle decides from the fetch outcome.
pub enum PollOutcome {
    /// The fetch or the parse failed: report it, process no entries.
    Failed(BushfireError),
    /// Invoke the Dispatcher for these entries, in document order.
    Dispatch(Vec<Entry>),
}

/// Decide one poll cycle: a fetch or parse failure aborts the cycle
/// with a report and touches no state; otherwise the in-range entries
/// not yet recorded are handed over for dispatch, in document order.
pub fn begin_poll(store: &Datastore, fetched: Result<String, BushfireError>, notify_near: GeoPoint)
    -> (r: PollOutcome)
    ensures
        match r {
            PollOutcome::Failed(e) => match fetched {
                Ok(body) => xml_nodes_of(body@) is None && e matches BushfireError::Xml(_),
                Err(fe) => e == fe,
            },
            PollOutcome::Dispatch(es) => fetched matches Ok(body) && xml_nodes_of(body@)
                matches Some(ns) && entries_view(es@) == spec_plan(
                near_filter(entries_of(ns), notify_near),
                store@,
            ),
        },
{
    match fetched {
        Err(e) => PollOutcome::Failed(e),
        Ok(body) => match check(body.as_str(), notify_near) {
            Err(e) => PollOutcome::Failed(e),
            Ok(es) => PollOutcome::Dispatch(entries_to_notify(store, es)),
        },
    }
}

/// The report posted when a poll cycle fails.
pub fn poll_failure_message(err: &BushfireError) -> (r: String)
    ensures
        r@ == "unable to poll bushfire feed: "@ + spec_message(*err),
{
    let m = err.message();
    String::from_str("unable to poll bushfire feed: ").concat(m.as_str())
}

/// The report posted when the durable append itself fails.
pub fn append_failure_message(err: &str) -> (r: String)
    ensures
        r@ == "Unable to append entry to bushfire datastore: "@ + err@,
{
    String::from_str("Unable to append entry to bushfire datastore: ").concat(err)
}

// ---------------------------------------------------------------------------
// The idempotence and at-least-once laws
// ---------------------------------------------------------------------------

proof fn lemma_plan_upto_excludes(es: Seq<EntryView>, store: Set<Seq<char>>, id: Seq<char>, k: int)
    requires
        store.contains(id),
        k <= es.len(),
    ensures
        forall|m: int|
            0 <= m < spec_plan_upto(es, store, k).len() ==> #[trigger] spec_plan_upto(
                es,
                store,
                k,
            )[m].id != id,
    decreases k,
{
    if k > 0 {
        lemma_plan_upto_excludes(es, store, id, k - 1);
    }
}

/// Idempotence: once an id is in the store, no cycle's plan over any
/// feed content invokes the Dispatcher for that id again.
pub proof fn lemma_no_repeat_notification(es: Seq<EntryView>, store: Set<Seq<char>>, id: Seq<char>)
    requires
        store.contains(id),
    ensures
        forall|m: int|
            0 <= m < spec_plan(es, store).len() ==> #[trigger] spec_plan(es, store)[m].id != id,
{
    lemma_plan_upto_excludes(es, store, id, es.len() as int);
}

proof fn lemma_plan_upto_keeps(es: Seq<EntryView>, store: Set<Seq<char>>, k: int, j: int)
    requires
        0 <= j < k <= es.len(),
        !store.contains(es[j].id),
    ensures
        spec_plan_upto(es, store, k).contains(es[j]),
    decreases k,
{
    if j == k - 1 {
        assert(spec_plan_upto(es, store, k).last() == es[j]);
    } else {
        lemma_plan_upto_keeps(es, store, k - 1, j);
        let pre = spec_plan_upto(es, store, k - 1);
        let m = choose|m: int| 0 <= m < pre.len() && pre[m] == es[j];
        assert(spec_plan_upto(es, store, k)[m] == es[j]);
    }
}

/// At-least-once: an in-range entry whose id the store does not hold
/// stands in the cycle's plan. In particular, after a dispatch success
/// whose durable append failed, the mirror is unchanged, so the same
/// feed content puts the entry in the next cycle's plan again.
pub proof fn lemma_unrecorded_entry_is_planned(
    es: Seq<EntryView>,
    store: Set<Seq<char>>,
    j: int,
)
    requires
        0 <= j < es.len(),
        !store.contains(es[j].id),
    ensures
        spec_plan(es, store).contains(es[j]),
{
    lemma_plan_upto_keeps(es, store, es.len() as int, j);
}

} // verus!
