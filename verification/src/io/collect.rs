//! Collecting the frames of running simulations, run by run, from a
//! stream of messages, until each run is finished and can be saved.

use vstd::prelude::*;

verus! {

/// The frames collected so far for one simulation run, with the run's
/// metadata and parameters (`P`), its snapshots (`S`) and the highest step
/// among them.
pub struct FrameCollector<P, S> {
    pub id: usize,
    pub tag: String,
    pub ensemble_id: usize,
    pub params: P,
    pub snapshots: Vec<S>,
    pub total_steps: u64,
}

/// What a collector holds: its id, tag, ensemble id, parameters, snapshots
/// and highest step.
pub open spec fn collector_view<P, S>(c: FrameCollector<P, S>) -> (usize, Seq<char>, usize, P, Seq<S>, u64) {
    (c.id, c.tag@, c.ensemble_id, c.params, c.snapshots@, c.total_steps)
}

/// A collector that has received no snapshot yet.
pub open spec fn fresh_view<P, S>(id: usize, tag: Seq<char>, ensemble_id: usize, params: P) -> (usize, Seq<char>, usize, P, Seq<S>, u64) {
    (id, tag, ensemble_id, params, Seq::empty(), 0)
}

/// A collector after one more snapshot, taken at `step`: the snapshot is
/// appended, and the highest step is raised to `step` if it is higher.
pub open spec fn appended_view<P, S>(
    c: (usize, Seq<char>, usize, P, Seq<S>, u64),
    step: usize,
    snapshot: S,
) -> (usize, Seq<char>, usize, P, Seq<S>, u64) {
    (c.0, c.1, c.2, c.3, c.4.push(snapshot), if c.5 >= step {
        c.5
    } else {
        step as u64
    })
}

/// A fresh collector holds no snapshot and no step; one more snapshot
/// comes last after the earlier ones, and the highest step becomes the
/// greater of the old highest step and the new snapshot's step.
pub proof fn lemma_collector_views<P, S>(
    c: (usize, Seq<char>, usize, P, Seq<S>, u64),
    step: usize,
    snapshot: S,
    id: usize,
    tag: Seq<char>,
    ensemble_id: usize,
    params: P,
)
    ensures
        fresh_view::<P, S>(id, tag, ensemble_id, params).4.len() == 0,
        fresh_view::<P, S>(id, tag, ensemble_id, params).5 == 0,
        fresh_view::<P, S>(id, tag, ensemble_id, params).0 == id,
        fresh_view::<P, S>(id, tag, ensemble_id, params).1 == tag,
        fresh_view::<P, S>(id, tag, ensemble_id, params).2 == ensemble_id,
        fresh_view::<P, S>(id, tag, ensemble_id, params).3 == params,
        ({
            let a = appended_view(c, step, snapshot);
            &&& a.0 == c.0 && a.1 == c.1 && a.2 == c.2 && a.3 == c.3
            &&& a.4.len() == c.4.len() + 1
            &&& a.4.last() == snapshot
            &&& a.4.subrange(0, c.4.len() as int) == c.4
            &&& a.5 >= c.5 && a.5 >= step
            &&& (a.5 == c.5 || a.5 == step)
        }),
{
    let a = appended_view(c, step, snapshot);
    assert(a.4.subrange(0, c.4.len() as int) =~= c.4);
}

impl<P, S> FrameCollector<P, S> {
    /// A collector for the run with this id, tag, ensemble id and
    /// parameters, before its first snapshot.
    pub fn new(id: usize, tag: String, ensemble_id: usize, params: P) -> (c: Self)
        ensures
            collector_view(c) == fresh_view::<P, S>(id, tag@, ensemble_id, params),
    {
        FrameCollector { id, tag, ensemble_id, params, snapshots: Vec::new(), total_steps: 0 }
    }

    /// Adds the snapshot taken at `step`.
    pub fn add_snapshot(&mut self, step: usize, snapshot: S)
        ensures
            collector_view(*final(self)) == appended_view(collector_view(*old(self)), step, snapshot),
    {
        let step64 = step as u64;
        if step64 > self.total_steps {
            self.total_steps = step64;
        }
        self.snapshots.push(snapshot);
    }
}

/// A message from a running simulation to the collector of its frames.
pub enum SimulationMessage<P, S> {
    /// Opens a collector for a run (replacing one with the same id).
    Init { id: usize, tag: String, ensemble_id: usize, params: P },
    /// A snapshot of a run, taken at `step`.
    Snapshot { simulation_id: usize, step: usize, snapshot: S },
    /// The run is over: its collector is closed and handed back.
    Finalize { simulation_id: usize },
}

/// What handling a message leads to.
pub enum CollectorStep<P, S> {
    /// Nothing is to be done outside the table.
    Continue,
    /// A snapshot came for a run that has no open collector; it is dropped.
    UnknownSnapshot { simulation_id: usize },
    /// A run is finished; its collector is handed back to be saved.
    Finished(FrameCollector<P, S>),
}

/// The index of the collector of run `id` among `runs`, if there is one.
pub open spec fn position_of<P, S>(runs: Seq<(usize, Seq<char>, usize, P, Seq<S>, u64)>, id: usize) -> Option<int>
    decreases runs.len(),
{
    if runs.len() == 0 {
        None
    } else if runs.last().0 == id {
        Some(runs.len() - 1)
    } else {
        position_of(runs.drop_last(), id)
    }
}

/// No two collectors of `runs` are for the same run.
pub open spec fn ids_distinct<P, S>(runs: Seq<(usize, Seq<char>, usize, P, Seq<S>, u64)>) -> bool {
    forall|a: int, b: int| 0 <= a < b < runs.len() ==> runs[a].0 != runs[b].0
}

/// The position of a run among collectors with distinct ids holds that
/// run's collector, and there is none when no collector is for it.
pub proof fn lemma_position_of<P, S>(runs: Seq<(usize, Seq<char>, usize, P, Seq<S>, u64)>, id: usize)
    requires
        ids_distinct(runs),
    ensures
        match position_of(runs, id) {
            Some(k) => 0 <= k < runs.len() && runs[k].0 == id,
            None => forall|i: int| 0 <= i < runs.len() ==> runs[i].0 != id,
        },
    decreases runs.len(),
{
    if runs.len() > 0 && runs.last().0 != id {
        lemma_position_of(runs.drop_last(), id);
        assert forall|i: int| 0 <= i < runs.len() - 1 implies runs.drop_last()[i] == runs[i] by {}
    }
}

proof fn lemma_position_at<P, S>(runs: Seq<(usize, Seq<char>, usize, P, Seq<S>, u64)>, id: usize, k: int)
    requires
        ids_distinct(runs),
        0 <= k < runs.len(),
        runs[k].0 == id,
    ensures
        position_of(runs, id) == Some(k),
    decreases runs.len(),
{
    if k < runs.len() - 1 {
        lemma_position_at(runs.drop_last(), id, k);
    }
}

proof fn lemma_position_none<P, S>(runs: Seq<(usize, Seq<char>, usize, P, Seq<S>, u64)>, id: usize)
    requires
        forall|i: int| 0 <= i < runs.len() ==> runs[i].0 != id,
    ensures
        position_of(runs, id) == None::<int>,
    decreases runs.len(),
{
    if runs.len() > 0 {
        lemma_position_none(runs.drop_last(), id);
    }
}

/// The open collectors, at most one per run.
pub struct CollectorTable<P, S> {
    collectors: Vec<FrameCollector<P, S>>,
}

/// The views of a list of collectors.
pub open spec fn runs_view<P, S>(v: Seq<FrameCollector<P, S>>) -> Seq<(usize, Seq<char>, usize, P, Seq<S>, u64)> {
    v.map_values(|c: FrameCollector<P, S>| collector_view(c))
}

impl<P, S> CollectorTable<P, S> {
    #[verifier::type_invariant]
    spec fn well_formed(self) -> bool {
        ids_distinct(runs_view(self.collectors@))
    }

    /// The open collectors, in the order in which their runs were opened.
    pub closed spec fn runs(self) -> Seq<(usize, Seq<char>, usize, P, Seq<S>, u64)> {
        runs_view(self.collectors@)
    }

    /// A table with no open collector.
    pub fn new() -> (t: Self)
        ensures
            t.runs() == Seq::<(usize, Seq<char>, usize, P, Seq<S>, u64)>::empty(),
    {
        let t = CollectorTable { collectors: Vec::new() };
        assert(t.runs() =~= Seq::<(usize, Seq<char>, usize, P, Seq<S>, u64)>::empty());
        t
    }

    /// The index of the collector of run `id`.
    fn find(&self, id: usize) -> (r: Option<usize>)
        ensures
            match r {
                Some(k) => position_of(self.runs(), id) == Some(k as int) && k < self.runs().len(),
                None => position_of(self.runs(), id) == None::<int>,
            },
    {
        proof {
            use_type_invariant(self);
        }
        let mut i: usize = 0;
        while i < self.collectors.len()
            invariant
                i <= self.collectors@.len(),
                ids_distinct(runs_view(self.collectors@)),
                forall|j: int| 0 <= j < i ==> #[trigger] runs_view(self.collectors@)[j].0 != id,
            decreases self.collectors.len() - i,
        {
            if self.collectors[i].id == id {
                proof {
                    lemma_position_at(runs_view(self.collectors@), id, i as int);
                }
                return Some(i);
            }
            i = i + 1;
        }
        proof {
            lemma_position_none(runs_view(self.collectors@), id);
        }
        None
    }

    /// Opens `collector`; it takes the place of an open collector of the
    /// same run, or comes after the open collectors.
    pub fn open(&mut self, collector: FrameCollector<P, S>)
        ensures
            final(self).runs() == match position_of(old(self).runs(), collector.id) {
                Some(k) => old(self).runs().update(k, collector_view(collector)),
                None => old(self).runs().push(collector_view(collector)),
            },
    {
        proof {
            use_type_invariant(&*self);
        }
        let ghost before = self.runs();
        let found = self.find(collector.id);
        let ghost cv = collector_view(collector);
        let mut v: Vec<FrameCollector<P, S>> = Vec::new();
        std::mem::swap(&mut v, &mut self.collectors);
        assert(runs_view(v@) == before);
        match found {
            Some(k) => {
                let _replaced = v.remove(k);
                v.insert(k, collector);
                assert(runs_view(v@) =~= before.update(k as int, cv));
            },
            None => {
                proof {
                    lemma_position_of(before, collector.id);
                }
                v.push(collector);
                assert(runs_view(v@) =~= before.push(cv));
            },
        }
        proof {
            lemma_position_of(before, cv.0);
            assert(ids_distinct(runs_view(v@)));
        }
        self.collectors = v;
    }

    /// Takes a message: `Init` opens a fresh collector for its run (in place
    /// of an open one with the same id); `Snapshot` appends to the open
    /// collector of its run, or changes nothing for a run with none;
    /// `Finalize` closes the collector of its run and hands it back, or
    /// changes nothing for a run with none.
    pub fn handle(&mut self, message: SimulationMessage<P, S>) -> (out: CollectorStep<P, S>)
        ensures
            match message {
                SimulationMessage::Init { id, tag, ensemble_id, params } => {
                    &&& out is Continue
                    &&& final(self).runs() == match position_of(old(self).runs(), id) {
                        Some(k) => old(self).runs().update(
                            k,
                            fresh_view::<P, S>(id, tag@, ensemble_id, params),
                        ),
                        None => old(self).runs().push(
                            fresh_view::<P, S>(id, tag@, ensemble_id, params),
                        ),
                    }
                },
                SimulationMessage::Snapshot { simulation_id, step, snapshot } => match position_of(
                    old(self).runs(),
                    simulation_id,
                ) {
                    Some(k) => {
                        &&& out is Continue
                        &&& final(self).runs() == old(self).runs().update(
                            k,
                            appended_view(old(self).runs()[k], step, snapshot),
                        )
                    },
                    None => {
                        &&& out == CollectorStep::<P, S>::UnknownSnapshot { simulation_id }
                        &&& final(self).runs() == old(self).runs()
                    },
                },
                SimulationMessage::Finalize { simulation_id } => match position_of(
                    old(self).runs(),
                    simulation_id,
                ) {
                    Some(k) => {
                        &&& out matches CollectorStep::Finished(c) && collector_view(c) == old(
                            self,
                        ).runs()[k]
                        &&& final(self).runs() == old(self).runs().remove(k)
                    },
                    None => {
                        &&& out is Continue
                        &&& final(self).runs() == old(self).runs()
                    },
                },
            },
    {
        proof {
            use_type_invariant(&*self);
        }
        let ghost before = self.runs();
        match message {
            SimulationMessage::Init { id, tag, ensemble_id, params } => {
                self.open(FrameCollector::new(id, tag, ensemble_id, params));
                CollectorStep::Continue
            },
            SimulationMessage::Snapshot { simulation_id, step, snapshot } => {
                match self.find(simulation_id) {
                    None => CollectorStep::UnknownSnapshot { simulation_id },
                    Some(k) => {
                        let mut v: Vec<FrameCollector<P, S>> = Vec::new();
                        std::mem::swap(&mut v, &mut self.collectors);
                        assert(runs_view(v@) == before);
                        let mut c = v.remove(k);
                        assert(collector_view(c) == before[k as int]);
                        c.add_snapshot(step, snapshot);
                        v.insert(k, c);
                        assert(runs_view(v@) =~= before.update(
                            k as int,
                            appended_view(before[k as int], step, snapshot),
                        ));
                        proof {
                            lemma_position_of(before, simulation_id);
                            assert(ids_distinct(runs_view(v@)));
                        }
                        self.collectors = v;
                        CollectorStep::Continue
                    },
                }
            },
            SimulationMessage::Finalize { simulation_id } => {
                match self.find(simulation_id) {
                    None => CollectorStep::Continue,
                    Some(k) => {
                        let mut v: Vec<FrameCollector<P, S>> = Vec::new();
                        std::mem::swap(&mut v, &mut self.collectors);
                        assert(runs_view(v@) == before);
                        let c = v.remove(k);
                        assert(collector_view(c) == before[k as int]);
                        assert(runs_view(v@) =~= before.remove(k as int));
                        proof {
                            assert(ids_distinct(runs_view(v@))) by {
                                let r = runs_view(v@);
                                assert forall|a: int, b: int| 0 <= a < b < r.len() implies r[a].0 != r[b].0 by {
                                    let ja = if a < k { a } else { a + 1 };
                                    let jb = if b < k { b } else { b + 1 };
                                    assert(r[a] == before[ja] && r[b] == before[jb]);
                                }
                            }
                        }
                        self.collectors = v;
                        CollectorStep::Finished(c)
                    },
                }
            },
        }
    }

    /// Closes every open collector and hands them back, in the order in
    /// which their runs were opened: what is left when the stream of
    /// messages ends.
    pub fn into_collectors(self) -> (all: Vec<FrameCollector<P, S>>)
        ensures
            runs_view(all@) == self.runs(),
    {
        self.collectors
    }
}

} // verus!
