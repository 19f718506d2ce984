//! The registry of running processes.
use std::collections::HashMap;
use vstd::prelude::*;
use vstd::std_specs::iter::IteratorSpec;

use crate::process::RunId;

verus! {

broadcast use vstd::std_specs::hash::group_hash_axioms;

/// Live session state shared across tool calls: the processes by their ids, and the id that the
/// next one gets.
pub struct Session<P> {
    pub runs: HashMap<RunId, P>,
    pub next_id: RunId,
}

/// In ascending order, none twice.
pub open spec fn is_ascending(ids: Seq<RunId>) -> bool {
    forall|i: int, j: int| 0 <= i < j < ids.len() ==> ids[i] < ids[j]
}

/// Put an id in its place.
fn put(ids: &mut Vec<RunId>, id: RunId)
    requires
        is_ascending(old(ids)@),
    ensures
        is_ascending(final(ids)@),
        forall|x: RunId| #[trigger]
            final(ids)@.contains(x) <==> old(ids)@.contains(x) || x == id,
{
    let ghost was = ids@;
    let mut at: usize = 0;
    while at < ids.len() && ids[at] < id
        invariant
            ids@ == was,
            at <= was.len(),
            forall|k: int| 0 <= k < at ==> was[k] < id,
        decreases was.len() - at,
    {
        at = at + 1;
    }
    if at < ids.len() && ids[at] == id {
        assert(was[at as int] == id);
        return;
    }
    ids.insert(at, id);
    let ghost now = ids@;
    assert(now[at as int] == id);
    assert forall|x: RunId| #[trigger] now.contains(x) <==> was.contains(x) || x == id by {
        if was.contains(x) {
            let k = was.index_of(x);
            if k < at {
                assert(now[k] == x);
            } else {
                assert(now[k + 1] == x);
            }
        }
        if now.contains(x) && x != id {
            let k = now.index_of(x);
            if k < at {
                assert(was[k] == x);
            } else {
                assert(was[k - 1] == x);
            }
        }
    }
}

impl<P> Session<P> {
    /// Every id in use was handed out before the next one.
    pub open spec fn wf(self) -> bool {
        &&& self.next_id >= 1
        &&& forall|id: RunId| #[trigger] self.runs@.dom().contains(id) ==> 1 <= id < self.next_id
    }

    pub fn new() -> (r: Self)
        ensures
            r.wf(),
            r.runs@ == Map::<RunId, P>::empty(),
            r.next_id == 1,
    {
        Session { runs: HashMap::new(), next_id: 1 }
    }

    /// Hand out the next id. It is used up whether or not a process comes of it, and no run has or
    /// will have the same.
    pub fn reserve(&mut self) -> (r: RunId)
        requires
            old(self).wf(),
            old(self).next_id < RunId::MAX,
        ensures
            final(self).wf(),
            r == old(self).next_id,
            !old(self).runs@.dom().contains(r),
            final(self).next_id == old(self).next_id + 1,
            final(self).runs@ == old(self).runs@,
    {
        let id = self.next_id;
        self.next_id = id + 1;
        id
    }

    /// Enter a started process under an id that was handed out for it.
    pub fn enter(&mut self, id: RunId, run: P)
        requires
            old(self).wf(),
            1 <= id < old(self).next_id,
        ensures
            final(self).wf(),
            final(self).runs@ == old(self).runs@.insert(id, run),
            final(self).next_id == old(self).next_id,
    {
        self.runs.insert(id, run);
    }

    /// The ids of all runs, in ascending order.
    pub fn ids(&self) -> (r: Vec<RunId>)
        ensures
            is_ascending(r@),
            forall|id: RunId| #[trigger] r@.contains(id) <==> self.runs@.dom().contains(id),
    {
        let mut out: Vec<RunId> = Vec::new();
        for id in it: self.runs.keys()
            invariant
                is_ascending(out@),
                forall|x: RunId| #[trigger]
                    out@.contains(x) <==> exists|k: int|
                        0 <= k < it.index() && *(#[trigger] it.seq()[k]) == x,
        {
            put(&mut out, *id);
        }
        assert forall|id: RunId| #[trigger] out@.contains(id) <==> self.runs@.dom().contains(
            id,
        ) by {
            let keys = vstd::std_specs::hash::spec_keys_iter(&self.runs).remaining();
            let plain = keys.unref();
            assert(plain.to_set().contains(id) <==> self.runs@.dom().contains(id));
            if plain.contains(id) {
                let k = plain.index_of(id);
                assert(*keys[k] == id);
            }
            if out@.contains(id) {
                let k = choose|k: int| 0 <= k < keys.len() && *(#[trigger] keys[k]) == id;
                assert(plain[k] == id);
            }
        }
        out
    }

    /// The runs that a call addresses: the one it names, else all of them in ascending order.
    pub fn addressed(&self, run_id: Option<RunId>) -> (r: Vec<RunId>)
        ensures
            match run_id {
                Some(id) => r@ == seq![id],
                None => is_ascending(r@) && forall|id: RunId| #[trigger]
                    r@.contains(id) <==> self.runs@.dom().contains(id),
            },
    {
        match run_id {
            Some(id) => vec![id],
            None => self.ids(),
        }
    }

    /// Take the addressed runs out of the registry, in ascending order of their ids.
    pub fn take(&mut self, run_id: Option<RunId>) -> (r: Vec<(RunId, P)>)
        requires
            old(self).wf(),
        ensures
            final(self).wf(),
            final(self).next_id == old(self).next_id,
            final(self).runs@ == match run_id {
                Some(id) => old(self).runs@.remove(id),
                None => Map::empty(),
            },
            is_ascending(ids_of(r@)),
            forall|id: RunId| #[trigger]
                ids_of(r@).contains(id) <==> old(self).runs@.dom().contains(id) && match run_id {
                    Some(want) => id == want,
                    None => true,
                },
            forall|i: int|
                0 <= i < r@.len() ==> (#[trigger] r@[i]).1 == old(self).runs@[r@[i].0],
    {
        let ids = self.addressed(run_id);
        let ghost all = old(self).runs@;
        let mut out: Vec<(RunId, P)> = Vec::new();
        assert(ids_of(out@) =~= Seq::<RunId>::empty());
        assert(is_ascending(ids@));
        assert(all.remove_keys(ids@.take(0).to_set()) =~= all);
        for i in 0..ids.len()
            invariant
                is_ascending(ids@),
                self.next_id == old(self).next_id,
                all == old(self).runs@,
                self.runs@ =~= all.remove_keys(ids@.take(i as int).to_set()),
                is_ascending(ids_of(out@)),
                out@.len() > 0 ==> i > 0 && ids_of(out@).last() <= ids@[i - 1],
                forall|id: RunId| #[trigger]
                    ids_of(out@).contains(id) <==> all.dom().contains(id) && ids@.take(
                        i as int,
                    ).contains(id),
                forall|k: int| 0 <= k < out@.len() ==> (#[trigger] out@[k]).1 == all[out@[k].0],
        {
            let id = ids[i];
            let ghost was = out@;
            let ghost front = ids@.take(i as int);
            let ghost longer = ids@.take(i + 1);
            assert(longer =~= front.push(id));
            assert(!front.contains(id));
            assert forall|x: RunId| #[trigger] longer.contains(x) <==> front.contains(x) || x
                == id by {
                if front.contains(x) {
                    assert(longer[front.index_of(x)] == x);
                }
                assert(longer[i as int] == id);
            }
            assert(longer.to_set() =~= front.to_set().insert(id));
            match self.runs.remove(&id) {
                Some(run) => {
                    out.push((id, run));
                    assert(ids_of(out@) =~= ids_of(was).push(id));
                    assert forall|x: RunId| #[trigger]
                        ids_of(out@).contains(x) <==> ids_of(was).contains(x) || x == id by {
                        if ids_of(was).contains(x) {
                            let k = ids_of(was).index_of(x);
                            assert(ids_of(out@)[k] == x);
                        }
                        assert(ids_of(out@)[ids_of(was).len() as int] == id);
                    }
                },
                None => {},
            }
        }
        assert(ids@.take(ids@.len() as int) =~= ids@);
        proof {
            let rest = all.remove_keys(ids@.to_set());
            match run_id {
                Some(want) => {
                    assert(ids@[0] == want);
                    assert(rest =~= all.remove(want));
                },
                None => {
                    assert(rest =~= Map::<RunId, P>::empty());
                },
            }
        }
        out
    }
}

pub open spec fn ids_of<P>(runs: Seq<(RunId, P)>) -> Seq<RunId> {
    runs.map_values(|run: (RunId, P)| run.0)
}

} // verus!
