//! Frame profiling: nested timing zones, GPU timer queries, draw call capture
//! and a log of strings.
//!
//! The profiler is a plain value; the clock, the GPU queries and the capture
//! switch of the renderer are driven by the caller from what these functions
//! return.
use vstd::prelude::*;
use crate::experimental::scene::arena::Arena;

verus! {

/// A timed zone of a frame. Zones are kept in the order they began; `parent` is
/// the zone that was active when this one began.
#[derive(Debug)]
pub struct Zone<T> {
    pub name: String,
    pub start_time: T,
    pub duration: T,
    pub parent: Option<usize>,
}

impl<T: Copy> Clone for Zone<T> {
    fn clone(&self) -> (r: Self)
        ensures
            r == *self,
    {
        Zone { name: self.name.clone(), start_time: self.start_time, duration: self.duration, parent: self.parent }
    }
}

/// The zones of one frame.
#[derive(Debug)]
pub struct Frame<T> {
    pub full_frame_time: T,
    pub zones: Vec<Zone<T>>,
    active_zone: Option<usize>,
}

impl<T: Copy> Clone for Frame<T> {
    fn clone(&self) -> (r: Self)
        ensures
            r.same_as(*self),
    {
        let zones = self.zones.clone();
        assert(zones@ =~= self.zones@);
        Frame { full_frame_time: self.full_frame_time, zones, active_zone: self.active_zone }
    }
}

impl<T> Frame<T> {
    /// The zone that is open now, if any.
    pub closed spec fn active(&self) -> Option<usize> {
        self.active_zone
    }

    /// Equal time, zones and open zone.
    pub open spec fn same_as(&self, other: Frame<T>) -> bool {
        &&& self.frame_time() == other.frame_time()
        &&& self.zone_seq() == other.zone_seq()
        &&& self.active() == other.active()
    }

    /// The zones, in the order they began.
    pub closed spec fn zone_seq(&self) -> Seq<Zone<T>> {
        self.zones@
    }

    pub closed spec fn frame_time(&self) -> T {
        self.full_frame_time
    }

    /// The open zone names an existing zone, and every zone's parent began before it.
    pub closed spec fn wf(&self) -> bool {
        &&& self.active() is Some ==> self.active().unwrap() < self.zones@.len()
        &&& forall|i: int|
            0 <= i < self.zones@.len() ==> match (#[trigger] self.zones@[i]).parent {
                Some(p) => p < i,
                None => true,
            }
    }

    fn new(zero: T) -> (f: Frame<T>)
        ensures
            f.wf(),
            f.frame_time() == zero,
            f.zone_seq().len() == 0,
            f.active() is None,
    {
        Frame { full_frame_time: zero, zones: Vec::new(), active_zone: None }
    }

    /// A copy of a frame with no zone open, `None` while a zone is open.
    pub fn try_clone(&self) -> (r: Option<Frame<T>>)
        where
            T: Copy,
        ensures
            match r {
                Some(f) => {
                    &&& self.active() is None
                    &&& f.same_as(*self)
                },
                None => self.active() is Some,
            },
    {
        if self.active_zone.is_some() {
            return None;
        }
        let zones = self.zones.clone();
        assert(zones@ =~= self.zones@);
        Some(Frame { full_frame_time: self.full_frame_time, zones, active_zone: None })
    }
}

/// A GPU timer query's state, by name.
#[derive(Clone, Copy, Debug)]
pub struct GpuQuery {
    pub in_progress: bool,
    pub value: u64,
    pub force_resume: bool,
}

/// What `reset` asks of the renderer's call capture.
#[derive(Clone, Copy, Debug)]
pub struct CaptureSwitch {
    /// Turn the capture off first.
    pub stop: bool,
    /// Then turn it on.
    pub start: bool,
}

pub struct Profiler<T, D> {
    frame: Frame<T>,
    prev_frame: Frame<T>,
    queries: Vec<(String, GpuQuery)>,
    active_query: Option<String>,
    enabled: bool,
    capture_request: bool,
    capture: bool,
    enable_request: Option<bool>,
    drawcalls: Vec<D>,
    strings: Vec<String>,
    zero: T,
}

/// The names of a list of queries.
pub open spec fn query_names(q: Seq<(String, GpuQuery)>) -> Seq<Seq<char>> {
    q.map_values(|e: (String, GpuQuery)| e.0@)
}

impl<T: Copy, D: Clone> Profiler<T, D> {
    pub closed spec fn current_frame(&self) -> Frame<T> {
        self.frame
    }

    pub closed spec fn previous_frame(&self) -> Frame<T> {
        self.prev_frame
    }

    pub closed spec fn is_enabled(&self) -> bool {
        self.enabled
    }

    pub closed spec fn pending_enable(&self) -> Option<bool> {
        self.enable_request
    }

    pub closed spec fn is_capturing(&self) -> bool {
        self.capture
    }

    pub closed spec fn capture_requested(&self) -> bool {
        self.capture_request
    }

    pub closed spec fn gpu_query_list(&self) -> Seq<(String, GpuQuery)> {
        self.queries@
    }

    pub closed spec fn open_query(&self) -> Option<Seq<char>> {
        match self.active_query {
            Some(s) => Some(s@),
            None => None,
        }
    }

    pub closed spec fn logged(&self) -> Seq<Seq<char>> {
        self.strings@.map_values(|s: String| s@)
    }

    pub closed spec fn captured_drawcalls(&self) -> Seq<D> {
        self.drawcalls@
    }

    pub closed spec fn zero_time(&self) -> T {
        self.zero
    }

    pub closed spec fn wf(&self) -> bool {
        &&& self.frame.wf()
        &&& self.prev_frame.wf()
        &&& query_names(self.queries@).no_duplicates()
        &&& match self.active_query {
            Some(n) => query_names(self.queries@).contains(n@),
            None => true,
        }
    }

    /// A profiler that is off, with empty frames; `zero` is the zero of the time type.
    pub fn new(zero: T) -> (p: Self)
        ensures
            p.wf(),
            !p.is_enabled(),
            p.pending_enable() is None,
            !p.is_capturing(),
            !p.capture_requested(),
            p.current_frame().zone_seq().len() == 0,
            p.current_frame().active() is None,
            p.previous_frame().zone_seq().len() == 0,
            p.gpu_query_list().len() == 0,
            p.open_query() is None,
            p.logged().len() == 0,
            p.captured_drawcalls().len() == 0,
            p.zero_time() == zero,
    {
        let p = Profiler {
            frame: Frame::new(zero),
            queries: Vec::new(),
            active_query: None,
            prev_frame: Frame::new(zero),
            enabled: false,
            enable_request: None,
            capture_request: false,
            capture: false,
            drawcalls: Vec::new(),
            strings: Vec::new(),
            zero,
        };
        assert(query_names(p.queries@) =~= Seq::<Seq<char>>::empty());
        assert(p.logged() =~= Seq::<Seq<char>>::empty());
        p
    }
}

impl<T: Copy, D: Clone> Profiler<T, D> {
    /// The position of the query called `name`.
    fn find_query(&self, name: &String) -> (r: Option<usize>)
        requires
            self.wf(),
        ensures
            match r {
                Some(i) => i < self.gpu_query_list().len() && self.gpu_query_list()[i as int].0@ == name@,
                None => !query_names(self.gpu_query_list()).contains(name@),
            },
    {
        let mut i: usize = 0;
        while i < self.queries.len()
            invariant
                0 <= i <= self.queries@.len(),
                forall|j: int| 0 <= j < i ==> self.queries@[j].0@ != name@,
            decreases self.queries@.len() - i,
        {
            if self.queries[i].0 == *name {
                return Some(i);
            }
            i = i + 1;
        }
        proof {
            if query_names(self.queries@).contains(name@) {
                let k = choose|k: int| 0 <= k < self.queries@.len() && query_names(self.queries@)[k] == name@;
                assert(self.queries@[k].0@ == name@);
            }
        }
        None
    }
}

/// Asks that profiling be switched on at the next `reset`.
pub fn enable<T: Copy, D: Clone>(profiler: &mut Profiler<T, D>)
    ensures
        final(profiler).pending_enable() == Some(true),
        final(profiler).is_enabled() == old(profiler).is_enabled(),
        final(profiler).current_frame() == old(profiler).current_frame(),
        final(profiler).wf() == old(profiler).wf(),
{
    profiler.enable_request = Some(true);
}

/// Asks that profiling be switched off at the next `reset`.
pub fn disable<T: Copy, D: Clone>(profiler: &mut Profiler<T, D>)
    ensures
        final(profiler).pending_enable() == Some(false),
        final(profiler).is_enabled() == old(profiler).is_enabled(),
        final(profiler).current_frame() == old(profiler).current_frame(),
        final(profiler).wf() == old(profiler).wf(),
{
    profiler.enable_request = Some(false);
}

/// Opens a zone called `name` that starts at `now`, inside the zone open so far.
/// Does nothing while profiling is off.
pub fn begin_zone<T: Copy, D: Clone>(profiler: &mut Profiler<T, D>, name: &str, now: T)
    requires
        old(profiler).wf(),
    ensures
        final(profiler).wf(),
        final(profiler).pending_enable() == old(profiler).pending_enable(),
        final(profiler).is_capturing() == old(profiler).is_capturing(),
        final(profiler).capture_requested() == old(profiler).capture_requested(),
        final(profiler).gpu_query_list() == old(profiler).gpu_query_list(),
        final(profiler).open_query() == old(profiler).open_query(),
        final(profiler).logged() == old(profiler).logged(),
        final(profiler).captured_drawcalls() == old(profiler).captured_drawcalls(),
        final(profiler).zero_time() == old(profiler).zero_time(),
        final(profiler).is_enabled() == old(profiler).is_enabled(),
        final(profiler).previous_frame() == old(profiler).previous_frame(),
        final(profiler).current_frame().frame_time() == old(profiler).current_frame().frame_time(),
        !old(profiler).is_enabled() ==> final(profiler).current_frame() == old(profiler).current_frame(),
        old(profiler).is_enabled() ==> {
            let old_zones = old(profiler).current_frame().zone_seq();
            let z = final(profiler).current_frame().zone_seq().last();
            &&& final(profiler).current_frame().zone_seq().len() == old_zones.len() + 1
            &&& final(profiler).current_frame().zone_seq().drop_last() == old_zones
            &&& z.name@ == name@
            &&& z.start_time == now
            &&& z.duration == old(profiler).zero_time()
            &&& z.parent == old(profiler).current_frame().active()
            &&& final(profiler).current_frame().active() == Some(old_zones.len() as usize)
        },
{
    if profiler.enabled {
        let parent = profiler.frame.active_zone;
        let ghost old_zones = profiler.frame.zones@;
        profiler.frame.zones.push(Zone { name: name.to_owned(), start_time: now, duration: profiler.zero, parent });
        profiler.frame.active_zone = Some(profiler.frame.zones.len() - 1);
        assert(profiler.frame.zones@.drop_last() =~= old_zones);
    }
}

/// Closes the open zone: its duration is what `duration_since` gives for its start.
/// Does nothing while profiling is off.
pub fn end_zone<T: Copy, D: Clone, F: Fn(T) -> T>(profiler: &mut Profiler<T, D>, duration_since: F)
    requires
        old(profiler).wf(),
        old(profiler).is_enabled() ==> old(profiler).current_frame().active() is Some,
        forall|t: T| duration_since.requires((t,)),
    ensures
        final(profiler).wf(),
        final(profiler).pending_enable() == old(profiler).pending_enable(),
        final(profiler).is_capturing() == old(profiler).is_capturing(),
        final(profiler).capture_requested() == old(profiler).capture_requested(),
        final(profiler).gpu_query_list() == old(profiler).gpu_query_list(),
        final(profiler).open_query() == old(profiler).open_query(),
        final(profiler).logged() == old(profiler).logged(),
        final(profiler).captured_drawcalls() == old(profiler).captured_drawcalls(),
        final(profiler).zero_time() == old(profiler).zero_time(),
        final(profiler).is_enabled() == old(profiler).is_enabled(),
        final(profiler).previous_frame() == old(profiler).previous_frame(),
        final(profiler).current_frame().frame_time() == old(profiler).current_frame().frame_time(),
        !old(profiler).is_enabled() ==> final(profiler).current_frame() == old(profiler).current_frame(),
        old(profiler).is_enabled() ==> {
            let old_zones = old(profiler).current_frame().zone_seq();
            let a = old(profiler).current_frame().active().unwrap() as int;
            let z = final(profiler).current_frame().zone_seq()[a];
            &&& final(profiler).current_frame().zone_seq().len() == old_zones.len()
            &&& forall|i: int| 0 <= i < old_zones.len() && i != a ==> final(profiler).current_frame().zone_seq()[i] == old_zones[i]
            &&& z.name == old_zones[a].name
            &&& z.start_time == old_zones[a].start_time
            &&& z.parent == old_zones[a].parent
            &&& duration_since.ensures((old_zones[a].start_time,), z.duration)
            &&& final(profiler).current_frame().active() == old_zones[a].parent
        },
{
    if profiler.enabled {
        let a = profiler.frame.active_zone.unwrap();
        let start_time = profiler.frame.zones[a].start_time;
        let duration = duration_since(start_time);
        let parent = profiler.frame.zones[a].parent;
        profiler.frame.zones[a].duration = duration;
        profiler.frame.active_zone = parent;
    }
}

/// What `begin_gpu_query` asks of the GPU: whether a timer query was made for a
/// new name, and whether the named query is to begin measuring now.
#[derive(Clone, Copy, Debug)]
pub struct GpuQueryStart {
    pub created: bool,
    pub begin: bool,
}

/// Makes `name` the active GPU query, adding it when it is new. A query that was
/// asked to resume (see `sample_gpu_queries`) starts measuring.
pub fn begin_gpu_query<T: Copy, D: Clone>(profiler: &mut Profiler<T, D>, name: &str) -> (r: GpuQueryStart)
    requires
        old(profiler).wf(),
        old(profiler).open_query() is None,
    ensures
        final(profiler).wf(),
        final(profiler).open_query() == Some(name@),
        r.created == !query_names(old(profiler).gpu_query_list()).contains(name@),
        r.created ==> final(profiler).gpu_query_list() == old(profiler).gpu_query_list().push(
            (final(profiler).gpu_query_list().last().0, GpuQuery { in_progress: false, value: 0, force_resume: false }),
        ) && final(profiler).gpu_query_list().last().0@ == name@,
        !r.created ==> exists|i: int|
            0 <= i < old(profiler).gpu_query_list().len() && #[trigger] old(profiler).gpu_query_list()[i].0@ == name@
                && {
                let (n, q) = old(profiler).gpu_query_list()[i];
                &&& r.begin == q.force_resume
                &&& final(profiler).gpu_query_list() == old(profiler).gpu_query_list().update(
                    i,
                    (n, GpuQuery { in_progress: q.in_progress || q.force_resume, ..q }),
                )
            },
        r.created ==> !r.begin,
        final(profiler).current_frame() == old(profiler).current_frame(),
        final(profiler).is_enabled() == old(profiler).is_enabled(),
{
    let name = name.to_owned();
    let ghost old_list = profiler.queries@;
    let i = match profiler.find_query(&name) {
        Some(i) => i,
        None => {
            profiler.queries.push((name.clone(), GpuQuery { in_progress: false, value: 0, force_resume: false }));
            proof {
                assert(query_names(profiler.queries@) =~= query_names(old_list).push(name@));
                assert forall|a: int, b: int| 0 <= a < b < query_names(profiler.queries@).len() implies
                    query_names(profiler.queries@)[a] != query_names(profiler.queries@)[b] by {
                    if b == old_list.len() {
                        assert(query_names(old_list)[a] == query_names(profiler.queries@)[a]);
                    }
                }
            }
            profiler.active_query = Some(name);
            assert(query_names(profiler.queries@).contains(name@)) by {
                assert(query_names(profiler.queries@)[old_list.len() as int] == name@);
            }
            return GpuQueryStart { created: true, begin: false };
        },
    };
    let mut q = profiler.queries[i].1;
    let begin = q.force_resume;
    if q.force_resume {
        q.in_progress = true;
    }
    let n = profiler.queries[i].0.clone();
    profiler.queries.set(i, (n, q));
    proof {
        assert(query_names(profiler.queries@) =~= query_names(old_list));
        assert(query_names(old_list)[i as int] == name@);
    }
    profiler.active_query = Some(name);
    GpuQueryStart { created: false, begin }
}

/// Ends the active GPU query. Returns its name and whether its timer is to be
/// stopped; the caller reads the timer's result, if it is available, into
/// `set_gpu_query_value`.
pub fn end_gpu_query<T: Copy, D: Clone>(profiler: &mut Profiler<T, D>) -> (r: (String, bool))
    requires
        old(profiler).wf(),
        old(profiler).open_query() is Some,
    ensures
        final(profiler).wf(),
        final(profiler).open_query() is None,
        r.0@ == old(profiler).open_query().unwrap(),
        exists|i: int|
            0 <= i < old(profiler).gpu_query_list().len() && #[trigger] old(profiler).gpu_query_list()[i].0@ == r.0@
                && {
                let (n, q) = old(profiler).gpu_query_list()[i];
                &&& r.1 == q.in_progress
                &&& final(profiler).gpu_query_list() == old(profiler).gpu_query_list().update(
                    i,
                    (n, if q.in_progress { GpuQuery { in_progress: false, force_resume: false, ..q } } else { q }),
                )
            },
        final(profiler).current_frame() == old(profiler).current_frame(),
        final(profiler).is_enabled() == old(profiler).is_enabled(),
{
    let name = profiler.active_query.take().unwrap();
    let ghost old_list = profiler.queries@;
    let i = profiler.find_query(&name).unwrap();
    let mut q = profiler.queries[i].1;
    let end = q.in_progress;
    if q.in_progress {
        q.force_resume = false;
        q.in_progress = false;
    }
    let n = profiler.queries[i].0.clone();
    profiler.queries.set(i, (n, q));
    assert(query_names(profiler.queries@) =~= query_names(old_list));
    assert(old_list[i as int].0@ == name@);
    assert(profiler.queries@ == old_list.update(i as int, (old_list[i as int].0, q)));
    assert(old_list == old(profiler).gpu_query_list());
    let ghost oq = old_list[i as int].1;
    assert(q == (if oq.in_progress { GpuQuery { in_progress: false, force_resume: false, ..oq } } else { oq }));
    assert(end == oq.in_progress);
    (name, end)
}

/// Stores the result read from the timer of the query called `name`.
pub fn set_gpu_query_value<T: Copy, D: Clone>(profiler: &mut Profiler<T, D>, name: &str, value: u64)
    requires
        old(profiler).wf(),
    ensures
        final(profiler).wf(),
        final(profiler).open_query() == old(profiler).open_query(),
        !query_names(old(profiler).gpu_query_list()).contains(name@) ==> final(profiler).gpu_query_list() == old(profiler).gpu_query_list(),
        forall|i: int|
            0 <= i < old(profiler).gpu_query_list().len() && #[trigger] old(profiler).gpu_query_list()[i].0@ == name@
                ==> {
                let (n, q) = old(profiler).gpu_query_list()[i];
                final(profiler).gpu_query_list() == old(profiler).gpu_query_list().update(i, (n, GpuQuery { value, ..q }))
            },
{
    let name = name.to_owned();
    let ghost old_list = profiler.queries@;
    let found = profiler.find_query(&name);
    if found.is_none() {
        assert forall|i: int|
            0 <= i < old_list.len() && #[trigger] old_list[i].0@ == name@ implies false by {
            assert(query_names(old_list)[i] == name@);
        }
    }
    if let Some(i) = found {
        let mut q = profiler.queries[i].1;
        q.value = value;
        let n = profiler.queries[i].0.clone();
        profiler.queries.set(i, (n, q));
        proof {
            assert(query_names(profiler.queries@) =~= query_names(old_list));
            assert(query_names(old_list)[i as int] == name@);
            assert(profiler.queries@ == old_list.update(i as int, (old_list[i as int].0, q)));
            assert forall|j: int|
                0 <= j < old_list.len() && #[trigger] old_list[j].0@ == name@ implies j == i by {
                if j != i {
                    assert(query_names(old_list)[j] == query_names(old_list)[i as int]);
                }
            }
        }
    }
}

/// The GPU queries by name, with their last measured value.
pub fn gpu_queries<T: Copy, D: Clone>(profiler: &Profiler<T, D>) -> (r: Vec<(String, u64)>)
    ensures
        r@.len() == profiler.gpu_query_list().len(),
        forall|i: int|
            0 <= i < r@.len() ==> (#[trigger] r@[i]).0@ == profiler.gpu_query_list()[i].0@ && r@[i].1
                == profiler.gpu_query_list()[i].1.value,
{
    let mut r: Vec<(String, u64)> = Vec::new();
    let mut i: usize = 0;
    while i < profiler.queries.len()
        invariant
            0 <= i <= profiler.queries@.len(),
            r@.len() == i,
            forall|j: int|
                0 <= j < i ==> (#[trigger] r@[j]).0@ == profiler.queries@[j].0@ && r@[j].1 == profiler.queries@[j].1.value,
        decreases profiler.queries@.len() - i,
    {
        r.push((profiler.queries[i].0.clone(), profiler.queries[i].1.value));
        i = i + 1;
    }
    r
}

/// Asks every GPU query to measure again the next time it begins.
pub fn sample_gpu_queries<T: Copy, D: Clone>(profiler: &mut Profiler<T, D>)
    requires
        old(profiler).wf(),
    ensures
        final(profiler).wf(),
        final(profiler).open_query() == old(profiler).open_query(),
        final(profiler).gpu_query_list().len() == old(profiler).gpu_query_list().len(),
        forall|i: int|
            0 <= i < old(profiler).gpu_query_list().len() ==> #[trigger] final(profiler).gpu_query_list()[i] == (
            old(profiler).gpu_query_list()[i].0,
            GpuQuery { force_resume: true, ..old(profiler).gpu_query_list()[i].1 },
        ),
{
    let ghost old_list = profiler.queries@;
    let mut i: usize = 0;
    while i < profiler.queries.len()
        invariant
            0 <= i <= profiler.queries@.len(),
            profiler.queries@.len() == old_list.len(),
            forall|j: int| i <= j < old_list.len() ==> profiler.queries@[j] == old_list[j],
            forall|j: int|
                0 <= j < i ==> #[trigger] profiler.queries@[j] == (
                old_list[j].0,
                GpuQuery { force_resume: true, ..old_list[j].1 },
            ),
            query_names(profiler.queries@) == query_names(old_list),
            profiler.wf(),
            profiler.active_query == old(profiler).active_query,
        decreases profiler.queries@.len() - i,
    {
        let mut q = profiler.queries[i].1;
        q.force_resume = true;
        let n = profiler.queries[i].0.clone();
        profiler.queries.set(i, (n, q));
        assert(query_names(profiler.queries@) =~= query_names(old_list));
        i = i + 1;
    }
}

/// Whether the renderer's call capture is to be switched off for debug rendering.
pub fn pause_gl_capture<T: Copy, D: Clone>(profiler: &Profiler<T, D>) -> (stop: bool)
    ensures
        stop == profiler.is_capturing(),
{
    profiler.capture
}

/// Whether the renderer's call capture is to be switched off after debug
/// rendering: as `pause_gl_capture`, it switches it off.
pub fn resume_gl_capture<T: Copy, D: Clone>(profiler: &Profiler<T, D>) -> (stop: bool)
    ensures
        stop == profiler.is_capturing(),
{
    profiler.capture
}

/// Starts a new frame: the current frame, given its full time, becomes the
/// previous one; a pending enable request takes effect; a running capture stops,
/// and a requested one starts with no recorded draw calls.
pub fn reset<T: Copy, D: Clone>(profiler: &mut Profiler<T, D>, full_frame_time: T) -> (r: CaptureSwitch)
    requires
        old(profiler).wf(),
        old(profiler).current_frame().active() is None,
    ensures
        final(profiler).wf(),
        final(profiler).previous_frame().frame_time() == full_frame_time,
        final(profiler).previous_frame().zone_seq() == old(profiler).current_frame().zone_seq(),
        final(profiler).previous_frame().active() is None,
        final(profiler).current_frame().zone_seq().len() == 0,
        final(profiler).current_frame().active() is None,
        final(profiler).current_frame().frame_time() == old(profiler).zero_time(),
        final(profiler).zero_time() == old(profiler).zero_time(),
        final(profiler).pending_enable() is None,
        final(profiler).is_enabled() == match old(profiler).pending_enable() {
            Some(e) => e,
            None => old(profiler).is_enabled(),
        },
        r.stop == old(profiler).is_capturing(),
        r.start == old(profiler).capture_requested(),
        final(profiler).is_capturing() == old(profiler).capture_requested(),
        !final(profiler).capture_requested(),
        final(profiler).captured_drawcalls() == if old(profiler).capture_requested() {
            Seq::<D>::empty()
        } else {
            old(profiler).captured_drawcalls()
        },
        final(profiler).gpu_query_list() == old(profiler).gpu_query_list(),
        final(profiler).open_query() == old(profiler).open_query(),
        final(profiler).logged() == old(profiler).logged(),
{
    profiler.frame.full_frame_time = full_frame_time;
    let zero = profiler.zero;
    let mut frame = Frame::new(zero);
    core::mem::swap(&mut profiler.frame, &mut frame);
    profiler.prev_frame = frame;
    if let Some(enable) = profiler.enable_request.take() {
        profiler.enabled = enable;
    }
    let stop = profiler.capture;
    if profiler.capture {
        profiler.capture = false;
    }
    let start = profiler.capture_request;
    if profiler.capture_request {
        profiler.drawcalls.clear();
        profiler.capture = true;
        profiler.capture_request = false;
    }
    CaptureSwitch { stop, start }
}

/// The previous frame.
pub fn frame<T: Copy, D: Clone>(profiler: &Profiler<T, D>) -> (f: Frame<T>)
    ensures
        f.same_as(profiler.previous_frame()),
{
    profiler.prev_frame.clone()
}

/// Records a draw call while a capture runs.
pub fn record_drawcall<T: Copy, D: Clone>(profiler: &mut Profiler<T, D>, drawcall: D)
    requires
        old(profiler).wf(),
    ensures
        final(profiler).wf(),
        final(profiler).captured_drawcalls() == old(profiler).captured_drawcalls().push(drawcall),
        final(profiler).is_capturing() == old(profiler).is_capturing(),
        final(profiler).capture_requested() == old(profiler).capture_requested(),
        final(profiler).current_frame() == old(profiler).current_frame(),
        final(profiler).previous_frame() == old(profiler).previous_frame(),
        final(profiler).is_enabled() == old(profiler).is_enabled(),
        final(profiler).pending_enable() == old(profiler).pending_enable(),
        final(profiler).gpu_query_list() == old(profiler).gpu_query_list(),
        final(profiler).open_query() == old(profiler).open_query(),
        final(profiler).logged() == old(profiler).logged(),
        final(profiler).zero_time() == old(profiler).zero_time(),
{
    profiler.drawcalls.push(drawcall);
}

/// The recorded draw calls, cloned.
pub fn drawcalls<T: Copy, D: Clone>(profiler: &Profiler<T, D>) -> (r: Vec<D>)
    ensures
        r@.len() == profiler.captured_drawcalls().len(),
        forall|i: int| 0 <= i < r@.len() ==> cloned::<D>(profiler.captured_drawcalls()[i], #[trigger] r@[i]),
{
    profiler.drawcalls.clone()
}

/// Appends `string` to the log.
pub fn log_string<T: Copy, D: Clone>(profiler: &mut Profiler<T, D>, string: &str)
    requires
        old(profiler).wf(),
    ensures
        final(profiler).wf(),
        final(profiler).logged() == old(profiler).logged().push(string@),
        final(profiler).current_frame() == old(profiler).current_frame(),
        final(profiler).is_enabled() == old(profiler).is_enabled(),
{
    let ghost old_strings = profiler.strings@;
    profiler.strings.push(string.to_owned());
    assert(profiler.strings@.map_values(|s: String| s@) =~= old_strings.map_values(|s: String| s@).push(string@));
}

/// The logged strings, in order.
pub fn strings<T: Copy, D: Clone>(profiler: &Profiler<T, D>) -> (r: Vec<String>)
    ensures
        r@.map_values(|s: String| s@) == profiler.logged(),
{
    let r = profiler.strings.clone();
    assert(r@.map_values(|s: String| s@) =~= profiler.logged()) by {
        assert forall|i: int| 0 <= i < r@.len() implies r@[i] == profiler.strings@[i] by {
            assert(cloned::<String>(profiler.strings@[i], r@[i]));
        }
    }
    r
}

/// Asks that the draw calls of the next frame be captured.
pub fn capture_frame<T: Copy, D: Clone>(profiler: &mut Profiler<T, D>)
    requires
        old(profiler).wf(),
    ensures
        final(profiler).wf(),
        final(profiler).capture_requested(),
        final(profiler).is_capturing() == old(profiler).is_capturing(),
        final(profiler).captured_drawcalls() == old(profiler).captured_drawcalls(),
        final(profiler).current_frame() == old(profiler).current_frame(),
        final(profiler).previous_frame() == old(profiler).previous_frame(),
        final(profiler).is_enabled() == old(profiler).is_enabled(),
        final(profiler).pending_enable() == old(profiler).pending_enable(),
        final(profiler).gpu_query_list() == old(profiler).gpu_query_list(),
        final(profiler).open_query() == old(profiler).open_query(),
        final(profiler).logged() == old(profiler).logged(),
        final(profiler).zero_time() == old(profiler).zero_time(),
{
    profiler.capture_request = true;
}

/// A zone that is open while this guard lives; `end` closes it.
pub struct ZoneGuard {
    _marker: (),
}

impl ZoneGuard {
    /// Opens the zone `name` at `now`.
    pub fn new<T: Copy, D: Clone>(profiler: &mut Profiler<T, D>, name: &str, now: T) -> (g: ZoneGuard)
        requires
            old(profiler).wf(),
        ensures
            final(profiler).wf(),
            final(profiler).pending_enable() == old(profiler).pending_enable(),
            final(profiler).is_capturing() == old(profiler).is_capturing(),
            final(profiler).capture_requested() == old(profiler).capture_requested(),
            final(profiler).gpu_query_list() == old(profiler).gpu_query_list(),
            final(profiler).open_query() == old(profiler).open_query(),
            final(profiler).logged() == old(profiler).logged(),
            final(profiler).captured_drawcalls() == old(profiler).captured_drawcalls(),
            final(profiler).zero_time() == old(profiler).zero_time(),
            final(profiler).is_enabled() == old(profiler).is_enabled(),
            final(profiler).previous_frame() == old(profiler).previous_frame(),
            final(profiler).current_frame().frame_time() == old(profiler).current_frame().frame_time(),
            !old(profiler).is_enabled() ==> final(profiler).current_frame() == old(profiler).current_frame(),
            old(profiler).is_enabled() ==> {
                let old_zones = old(profiler).current_frame().zone_seq();
                let z = final(profiler).current_frame().zone_seq().last();
                &&& final(profiler).current_frame().zone_seq().len() == old_zones.len() + 1
            &&& final(profiler).current_frame().zone_seq().drop_last() == old_zones
                &&& z.name@ == name@
                &&& z.start_time == now
                &&& z.duration == old(profiler).zero_time()
                &&& z.parent == old(profiler).current_frame().active()
                &&& final(profiler).current_frame().active() == Some(old_zones.len() as usize)
            },
    {
        begin_zone(profiler, name, now);
        ZoneGuard { _marker: () }
    }

    /// Closes the zone this guard opened.
    pub fn end<T: Copy, D: Clone, F: Fn(T) -> T>(self, profiler: &mut Profiler<T, D>, duration_since: F)
        requires
            old(profiler).wf(),
            old(profiler).is_enabled() ==> old(profiler).current_frame().active() is Some,
            forall|t: T| duration_since.requires((t,)),
        ensures
            final(profiler).wf(),
            final(profiler).pending_enable() == old(profiler).pending_enable(),
            final(profiler).is_capturing() == old(profiler).is_capturing(),
            final(profiler).capture_requested() == old(profiler).capture_requested(),
            final(profiler).gpu_query_list() == old(profiler).gpu_query_list(),
            final(profiler).open_query() == old(profiler).open_query(),
            final(profiler).logged() == old(profiler).logged(),
            final(profiler).captured_drawcalls() == old(profiler).captured_drawcalls(),
            final(profiler).zero_time() == old(profiler).zero_time(),
            final(profiler).is_enabled() == old(profiler).is_enabled(),
            final(profiler).previous_frame() == old(profiler).previous_frame(),
            final(profiler).current_frame().frame_time() == old(profiler).current_frame().frame_time(),
            !old(profiler).is_enabled() ==> final(profiler).current_frame() == old(profiler).current_frame(),
            old(profiler).is_enabled() ==> {
                let old_zones = old(profiler).current_frame().zone_seq();
                let a = old(profiler).current_frame().active().unwrap() as int;
                let z = final(profiler).current_frame().zone_seq()[a];
                &&& final(profiler).current_frame().zone_seq().len() == old_zones.len()
                &&& forall|i: int| 0 <= i < old_zones.len() && i != a ==> final(profiler).current_frame().zone_seq()[i] == old_zones[i]
                &&& z.name == old_zones[a].name
                &&& z.start_time == old_zones[a].start_time
                &&& z.parent == old_zones[a].parent
                &&& duration_since.ensures((old_zones[a].start_time,), z.duration)
                &&& final(profiler).current_frame().active() == old_zones[a].parent
            },
    {
        end_zone(profiler, duration_since);
    }
}


/// The memory the scene has taken: the bytes used in its arena's current page.
pub fn scene_allocated_memory(arena: &Arena) -> (r: usize)
    ensures
        r == arena.used(),
{
    arena.offset()
}

/// Opening a zone and closing it again gives back the zone that was open before,
/// and leaves the earlier zones as they were: zones nest.
pub proof fn law_zones_nest<T: Copy, D: Clone>(
    before: Profiler<T, D>,
    opened: Profiler<T, D>,
    closed: Profiler<T, D>,
)
    requires
        before.is_enabled(),
        before.current_frame().zone_seq().len() < usize::MAX,
        opened.current_frame().zone_seq().drop_last() == before.current_frame().zone_seq(),
        opened.current_frame().zone_seq().len() > 0,
        opened.current_frame().zone_seq().last().parent == before.current_frame().active(),
        opened.current_frame().active() == Some(before.current_frame().zone_seq().len() as usize),
        closed.current_frame().zone_seq().len() == opened.current_frame().zone_seq().len(),
        forall|i: int|
            0 <= i < opened.current_frame().zone_seq().len() && i != opened.current_frame().active().unwrap()
                ==> closed.current_frame().zone_seq()[i] == opened.current_frame().zone_seq()[i],
        closed.current_frame().active() == opened.current_frame().zone_seq()[opened.current_frame().active().unwrap() as int].parent,
    ensures
        closed.current_frame().active() == before.current_frame().active(),
        forall|i: int| 0 <= i < before.current_frame().zone_seq().len() ==> closed.current_frame().zone_seq()[i]
            == before.current_frame().zone_seq()[i],
{
    let zs = opened.current_frame().zone_seq();
    let n = before.current_frame().zone_seq().len();
    assert(zs.len() == n + 1);
    assert(opened.current_frame().active().unwrap() as int == n);
    assert(zs[n as int] == zs.last());
    assert forall|i: int| 0 <= i < before.current_frame().zone_seq().len() implies closed.current_frame().zone_seq()[i]
        == before.current_frame().zone_seq()[i] by {
        assert(zs.drop_last()[i] == zs[i]);
    }
}

/// A capture asked for during one frame runs over exactly the next frame: the
/// `reset` that ends the asking frame starts it with no draw calls, and the `reset`
/// after it stops it, keeping just the draw calls recorded in between, in order
/// (each `record_drawcall` appends one).
pub proof fn law_capture_covers_the_next_frame<T: Copy, D: Clone>(
    asked: Profiler<T, D>,
    started: Profiler<T, D>,
    recorded: Profiler<T, D>,
    stopped: Profiler<T, D>,
    drawcalls: Seq<D>,
)
    requires
        asked.capture_requested(),
        started.is_capturing() == asked.capture_requested(),
        !started.capture_requested(),
        started.captured_drawcalls() == (if asked.capture_requested() {
            Seq::<D>::empty()
        } else {
            asked.captured_drawcalls()
        }),
        recorded.captured_drawcalls() == started.captured_drawcalls() + drawcalls,
        recorded.is_capturing() == started.is_capturing(),
        recorded.capture_requested() == started.capture_requested(),
        stopped.is_capturing() == recorded.capture_requested(),
        !stopped.capture_requested(),
        stopped.captured_drawcalls() == (if recorded.capture_requested() {
            Seq::<D>::empty()
        } else {
            recorded.captured_drawcalls()
        }),
    ensures
        started.is_capturing(),
        started.captured_drawcalls().len() == 0,
        !stopped.is_capturing(),
        stopped.captured_drawcalls() == drawcalls,
{
    assert(stopped.captured_drawcalls() =~= drawcalls);
}

/// A guarded zone around a balanced body: `ZoneGuard::new` opens one zone, the body
/// closes whatever it opens (so the guard's zone is open again after it, with every
/// zone up to it as it was), and `end` closes the guard's zone. Then the zones of
/// before are untouched, the guard's zone sits at the nesting level of entry, under
/// its name, and the open zone is the one of entry again.
pub proof fn law_guarded_zone_nests<T: Copy, D: Clone>(
    before: Profiler<T, D>,
    opened: Profiler<T, D>,
    inner: Profiler<T, D>,
    closed: Profiler<T, D>,
    name: Seq<char>,
)
    requires
        before.is_enabled(),
        before.current_frame().zone_seq().len() < usize::MAX,
        opened.current_frame().zone_seq().len() == before.current_frame().zone_seq().len() + 1,
        opened.current_frame().zone_seq().drop_last() == before.current_frame().zone_seq(),
        opened.current_frame().zone_seq().last().name@ == name,
        opened.current_frame().zone_seq().last().parent == before.current_frame().active(),
        opened.current_frame().active() == Some(before.current_frame().zone_seq().len() as usize),
        inner.current_frame().active() == opened.current_frame().active(),
        inner.current_frame().zone_seq().len() >= opened.current_frame().zone_seq().len(),
        forall|i: int|
            0 <= i < opened.current_frame().zone_seq().len() ==> inner.current_frame().zone_seq()[i]
                == opened.current_frame().zone_seq()[i],
        closed.current_frame().zone_seq().len() == inner.current_frame().zone_seq().len(),
        forall|i: int|
            0 <= i < inner.current_frame().zone_seq().len() && i != inner.current_frame().active().unwrap()
                ==> closed.current_frame().zone_seq()[i] == inner.current_frame().zone_seq()[i],
        closed.current_frame().zone_seq()[inner.current_frame().active().unwrap() as int].name
            == inner.current_frame().zone_seq()[inner.current_frame().active().unwrap() as int].name,
        closed.current_frame().zone_seq()[inner.current_frame().active().unwrap() as int].parent
            == inner.current_frame().zone_seq()[inner.current_frame().active().unwrap() as int].parent,
        closed.current_frame().active() == inner.current_frame().zone_seq()[inner.current_frame().active().unwrap() as int].parent,
    ensures
        ({
            let n = before.current_frame().zone_seq().len() as int;
            &&& closed.current_frame().active() == before.current_frame().active()
            &&& forall|i: int| 0 <= i < n ==> closed.current_frame().zone_seq()[i] == before.current_frame().zone_seq()[i]
            &&& closed.current_frame().zone_seq()[n].name@ == name
            &&& closed.current_frame().zone_seq()[n].parent == before.current_frame().active()
        }),
{
    let n = before.current_frame().zone_seq().len() as int;
    let zs = opened.current_frame().zone_seq();
    assert(zs[n] == zs.last());
    assert(inner.current_frame().zone_seq()[n] == zs[n]);
    assert forall|i: int| 0 <= i < n implies closed.current_frame().zone_seq()[i] == before.current_frame().zone_seq()[i] by {
        assert(zs.drop_last()[i] == zs[i]);
        assert(inner.current_frame().zone_seq()[i] == zs[i]);
    }
}

} // verus!
