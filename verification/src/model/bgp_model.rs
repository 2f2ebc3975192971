use vstd::prelude::*;
use linked_hash_map::LinkedHashMap;

verus! {

/// What changed in the list of background processes.
#[derive(PartialEq, Eq, Structural, Copy, Clone, Debug)]
pub enum BGPModelEvent {
    CountUpdated,
    OverallProgressUpdated,
}

/// The sum of the progress values of `s`.
pub open spec fn progress_sum(s: Seq<(u128, u8)>) -> int
    decreases s.len(),
{
    if s.len() == 0 {
        0
    } else {
        progress_sum(s.drop_last()) + s.last().1
    }
}

/// The mean progress, rounded up; 0 when nothing runs.
pub open spec fn mean_progress(s: Seq<(u128, u8)>) -> int {
    if s.len() == 0 {
        0
    } else {
        (progress_sum(s) + s.len() - 1) / (s.len() as int)
    }
}

/// No process occurs twice.
pub open spec fn unique_ids(s: Seq<(u128, u8)>) -> bool {
    forall|i: int, j: int| 0 <= i < j < s.len() ==> s[i].0 != s[j].0
}

/// The position of process `id`, if it runs.
pub open spec fn position_of(s: Seq<(u128, u8)>, id: u128) -> Option<int> {
    if exists|i: int| 0 <= i < s.len() && s[i].0 == id {
        Some(choose|i: int| 0 <= i < s.len() && s[i].0 == id)
    } else {
        None
    }
}

/// The events announced when the number of processes goes from `c0` to `c1` and the overall
/// progress from `p0` to `p1`.
pub open spec fn change_events(c0: int, c1: int, p0: int, p1: int) -> Seq<BGPModelEvent> {
    let a = if c0 != c1 { seq![BGPModelEvent::CountUpdated] } else { Seq::empty() };
    if p0 != p1 {
        a.push(BGPModelEvent::OverallProgressUpdated)
    } else {
        a
    }
}

proof fn lemma_progress_sum_bounds(s: Seq<(u128, u8)>)
    ensures
        0 <= progress_sum(s) <= 255 * s.len(),
    decreases s.len(),
{
    if s.len() > 0 {
        lemma_progress_sum_bounds(s.drop_last());
    }
}

proof fn lemma_mean_bounds(s: Seq<(u128, u8)>)
    ensures
        0 <= mean_progress(s) <= 255,
{
    lemma_progress_sum_bounds(s);
    if s.len() > 0 {
        let n = s.len() as int;
        let t = progress_sum(s) + n - 1;
        assert(t < 256 * n);
        assert(t / n < 256) by (nonlinear_arith)
            requires
                t < 256 * n,
                n > 0,
        ;
        assert(t / n >= 0) by (nonlinear_arith)
            requires
                t >= 0,
                n > 0,
        ;
    }
}

#[verifier::external_type_specification]
#[verifier::external_body]
#[verifier::reject_recursive_types(K)]
#[verifier::reject_recursive_types(V)]
#[verifier::reject_recursive_types(S)]
pub struct ExLinkedHashMap<K, V, S>(LinkedHashMap<K, V, S>);

/// What a map of processes to their progress holds: its entries in the order the map keeps
/// them (each key once).
pub uninterp spec fn process_entries(m: LinkedHashMap<u128, u8>) -> Seq<(u128, u8)>;

/// `LinkedHashMap::new`: an empty map.
#[verifier::external_body]
fn map_new() -> (r: LinkedHashMap<u128, u8>)
    ensures
        process_entries(r) == Seq::<(u128, u8)>::empty(),
{
    LinkedHashMap::new()
}

/// `LinkedHashMap::insert`: a new key goes to the end with its value; an existing key gets
/// the new value and moves to the end; the old value is returned.
#[verifier::external_body]
fn map_insert(m: &mut LinkedHashMap<u128, u8>, k: u128, v: u8) -> (r: Option<u8>)
    requires
        unique_ids(process_entries(*old(m))),
    ensures
        unique_ids(process_entries(*final(m))),
        match position_of(process_entries(*old(m)), k) {
            Some(i) => r == Some(process_entries(*old(m))[i].1)
                && process_entries(*final(m)) == process_entries(*old(m)).remove(i).push((k, v)),
            None => r is None && process_entries(*final(m)) == process_entries(*old(m)).push((k, v)),
        },
{
    m.insert(k, v)
}

/// `LinkedHashMap::get_mut`, to give key `k` value `v` in place; whether `k` was there.
#[verifier::external_body]
fn map_set(m: &mut LinkedHashMap<u128, u8>, k: u128, v: u8) -> (r: bool)
    requires
        unique_ids(process_entries(*old(m))),
    ensures
        unique_ids(process_entries(*final(m))),
        match position_of(process_entries(*old(m)), k) {
            Some(i) => r && process_entries(*final(m)) == process_entries(*old(m)).update(i, (k, v)),
            None => !r && process_entries(*final(m)) == process_entries(*old(m)),
        },
{
    match m.get_mut(&k) {
        Some(x) => {
            *x = v;
            true
        },
        None => false,
    }
}

/// `LinkedHashMap::remove`: the entry of `k` leaves, the others keep their order; its value
/// is returned.
#[verifier::external_body]
fn map_remove(m: &mut LinkedHashMap<u128, u8>, k: u128) -> (r: Option<u8>)
    requires
        unique_ids(process_entries(*old(m))),
    ensures
        unique_ids(process_entries(*final(m))),
        match position_of(process_entries(*old(m)), k) {
            Some(i) => r == Some(process_entries(*old(m))[i].1)
                && process_entries(*final(m)) == process_entries(*old(m)).remove(i),
            None => r is None && process_entries(*final(m)) == process_entries(*old(m)),
        },
{
    m.remove(&k)
}

/// `LinkedHashMap::len`.
#[verifier::external_body]
fn map_len(m: &LinkedHashMap<u128, u8>) -> (r: usize)
    ensures
        r == process_entries(*m).len(),
{
    m.len()
}

/// `LinkedHashMap::values`, collected in the map's order.
#[verifier::external_body]
fn map_values(m: &LinkedHashMap<u128, u8>) -> (r: Vec<u8>)
    ensures
        r@ == process_entries(*m).map_values(|e: (u128, u8)| e.1),
{
    m.values().copied().collect()
}

/// The background processes that run, with their progress, and the two numbers shown of them:
/// how many there are and their mean progress.
pub struct BGPModel {
    processes: LinkedHashMap<u128, u8>,
    count: usize,
    overall_progress: u8,
}

impl BGPModel {
    #[verifier::type_invariant]
    spec fn wf(self) -> bool {
        &&& unique_ids(process_entries(self.processes))
        &&& self.count == process_entries(self.processes).len()
        &&& self.overall_progress == mean_progress(process_entries(self.processes))
    }

    /// The processes, each with its progress, in the order the map keeps them (a process
    /// registered again moves to the end).
    pub closed spec fn spec_processes(self) -> Seq<(u128, u8)> {
        process_entries(self.processes)
    }

    pub closed spec fn spec_count(self) -> usize {
        self.count
    }

    pub closed spec fn spec_overall_progress(self) -> u8 {
        self.overall_progress
    }

    pub fn new() -> (r: Self)
        ensures
            r.spec_processes() == Seq::<(u128, u8)>::empty(),
            r.spec_count() == 0,
            r.spec_overall_progress() == 0,
    {
        BGPModel { processes: map_new(), count: 0, overall_progress: 0 }
    }

    pub fn get_number(&self) -> (r: usize)
        ensures
            r == self.spec_count(),
    {
        self.count
    }

    pub fn get_overall_progress(&self) -> (r: u8)
        ensures
            r == self.spec_overall_progress(),
    {
        self.overall_progress
    }

    /// Brings the two shown numbers up to date with the processes and returns the events that
    /// announce what changed.
    fn recalculate(processes: LinkedHashMap<u128, u8>, count: usize, overall_progress: u8) -> (r: (Self, Vec<BGPModelEvent>))
        requires
            unique_ids(process_entries(processes)),
        ensures
            process_entries(r.0.processes) == process_entries(processes),
            r.0.count == process_entries(processes).len(),
            r.0.overall_progress == mean_progress(process_entries(processes)),
            r.1@ == change_events(count as int, process_entries(processes).len() as int, overall_progress as int, mean_progress(process_entries(processes))),
    {
        let ghost e = process_entries(processes);
        let mut events = Vec::new();
        let n = map_len(&processes);
        if count != n {
            events.push(BGPModelEvent::CountUpdated);
        }
        let values = map_values(&processes);
        let mut sum: u128 = 0;
        let mut i: usize = 0;
        proof {
            lemma_progress_sum_bounds(e);
        }
        while i < n
            invariant
                n == e.len(),
                values@ == e.map_values(|x: (u128, u8)| x.1),
                i <= n,
                sum == progress_sum(e.take(i as int)),
                sum <= 255 * i,
            decreases n - i,
        {
            proof {
                assert(e.take(i + 1).drop_last() =~= e.take(i as int));
            }
            sum = sum + values[i] as u128;
            i += 1;
        }
        proof {
            assert(e.take(n as int) =~= e);
            lemma_mean_bounds(e);
        }
        let p: u8 = if n > 0 {
            let n128 = n as u128;
            ((sum + n128 - 1) / n128) as u8
        } else {
            0
        };
        if overall_progress != p {
            events.push(BGPModelEvent::OverallProgressUpdated);
        }
        (BGPModel { processes, count: n, overall_progress: p }, events)
    }

    /// A process `id` starts, with progress 0; registered again, it moves to the end.
    pub fn register(&mut self, id: u128) -> (r: Vec<BGPModelEvent>)
        ensures
            unique_ids(final(self).spec_processes()),
            final(self).spec_count() == final(self).spec_processes().len(),
            final(self).spec_overall_progress() == mean_progress(final(self).spec_processes()),
            final(self).spec_processes() == (match position_of(old(self).spec_processes(), id) {
                Some(i) => old(self).spec_processes().remove(i).push((id, 0u8)),
                None => old(self).spec_processes().push((id, 0u8)),
            }),
            r@ == change_events(
                old(self).spec_count() as int,
                final(self).spec_processes().len() as int,
                old(self).spec_overall_progress() as int,
                mean_progress(final(self).spec_processes()),
            ),
    {
        proof {
            use_type_invariant(&*self);
        }
        let mut m0 = BGPModel::new();
        std::mem::swap(&mut m0, self);
        proof {
            use_type_invariant(&m0);
        }
        let BGPModel { mut processes, count, overall_progress } = m0;
        let _ = map_insert(&mut processes, id, 0);
        let (m, events) = Self::recalculate(processes, count, overall_progress);
        *self = m;
        events
    }

    /// Process `id` reports progress `p`; a process that does not run is ignored.
    pub fn update_progress(&mut self, id: u128, p: u8) -> (r: Vec<BGPModelEvent>)
        ensures
            unique_ids(final(self).spec_processes()),
            final(self).spec_count() == final(self).spec_processes().len(),
            final(self).spec_overall_progress() == mean_progress(final(self).spec_processes()),
            match position_of(old(self).spec_processes(), id) {
                Some(i) => {
                    &&& final(self).spec_processes() == old(self).spec_processes().update(i, (id, p))
                    &&& r@ == change_events(
                        old(self).spec_count() as int,
                        final(self).spec_processes().len() as int,
                        old(self).spec_overall_progress() as int,
                        mean_progress(final(self).spec_processes()),
                    )
                },
                None => final(self).spec_processes() == old(self).spec_processes()
                    && final(self).spec_count() == old(self).spec_count()
                    && final(self).spec_overall_progress() == old(self).spec_overall_progress() && r@.len() == 0,
            },
    {
        proof {
            use_type_invariant(&*self);
        }
        let mut m0 = BGPModel::new();
        std::mem::swap(&mut m0, self);
        proof {
            use_type_invariant(&m0);
        }
        let BGPModel { mut processes, count, overall_progress } = m0;
        if map_set(&mut processes, id, p) {
            let (m, events) = Self::recalculate(processes, count, overall_progress);
            *self = m;
            events
        } else {
            *self = BGPModel { processes, count, overall_progress };
            Vec::new()
        }
    }

    /// Process `id` has completed and leaves the list; a process that does not run is ignored
    /// (the numbers are still brought up to date).
    pub fn complete(&mut self, id: u128) -> (r: Vec<BGPModelEvent>)
        ensures
            unique_ids(final(self).spec_processes()),
            final(self).spec_count() == final(self).spec_processes().len(),
            final(self).spec_overall_progress() == mean_progress(final(self).spec_processes()),
            final(self).spec_processes() == (match position_of(old(self).spec_processes(), id) {
                Some(i) => old(self).spec_processes().remove(i),
                None => old(self).spec_processes(),
            }),
            r@ == change_events(
                old(self).spec_count() as int,
                final(self).spec_processes().len() as int,
                old(self).spec_overall_progress() as int,
                mean_progress(final(self).spec_processes()),
            ),
    {
        proof {
            use_type_invariant(&*self);
        }
        let mut m0 = BGPModel::new();
        std::mem::swap(&mut m0, self);
        proof {
            use_type_invariant(&m0);
        }
        let BGPModel { mut processes, count, overall_progress } = m0;
        let _ = map_remove(&mut processes, id);
        let (m, events) = Self::recalculate(processes, count, overall_progress);
        *self = m;
        events
    }
}

} // verus!
