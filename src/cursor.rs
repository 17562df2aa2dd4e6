//! The timeline cursor: walks the ordered input names and the fixed-step
//! output instants in lockstep and decides, for each instant, which input
//! stands for it and whether it is a night instant.
use vstd::prelude::*;
use crate::error::Error;
use crate::timestamp::{
    formattable,
    in_night,
    is_night,
    lemma_equal_bounds_all_night,
    parse_date,
    parsed_name,
};

verus! {

/// The output timeline: instants `start`, `start + step`, ... up to and
/// including `end`, and the night window in seconds since midnight.
pub struct Timeline {
    pub start: i64,
    pub end: i64,
    pub step: i64,
    pub night_start: u32,
    pub night_end: u32,
}

impl Timeline {
    pub open spec fn wf(&self) -> bool {
        &&& 0 < self.step <= 0x100_0000_0000
        &&& formattable(self.start as int)
        &&& formattable(self.end as int)
    }
}

/// An input that the cursor holds: its place in the input list, its instant
/// and its date label.
pub struct Stamp {
    pub index: usize,
    pub time: i64,
    pub label: String,
}

/// What is to be rendered for one output instant.
pub struct Frame {
    pub instant: i64,
    /// The input whose name and label the frame carries.
    pub source: usize,
    /// The date label of `source`.
    pub label: String,
    /// The input whose decoded pixels the frame shows: always `source`, so
    /// a frame never mixes the name of one input with the pixels of another.
    pub pixels: usize,
    /// Whether `pixels` is decoded (again) for this frame: when no lookahead
    /// was buffered, and on the instant of a switch to a new input.
    pub decode: bool,
    pub night: bool,
}

/// The cursor's state: the instant to render next, the active input, the
/// lookahead input if one is buffered, and the next input to pull. Once
/// `finished`, the timeline is exhausted.
pub struct Cursor {
    pub tick: i64,
    pub active: Stamp,
    pub lookahead: Option<Stamp>,
    pub next: usize,
    pub finished: bool,
}

pub struct CursorView {
    pub tick: int,
    pub active: int,
    pub lookahead: Option<int>,
    pub next: int,
    pub finished: bool,
}

impl View for Cursor {
    type V = CursorView;

    open spec fn view(&self) -> CursorView {
        CursorView {
            tick: self.tick as int,
            active: self.active.index as int,
            lookahead: match self.lookahead {
                Some(s) => Some(s.index as int),
                None => None,
            },
            next: self.next as int,
            finished: self.finished,
        }
    }
}

/// The instant that the `i`-th name carries.
pub open spec fn name_time(names: Seq<String>, i: int) -> int {
    parsed_name(names[i]@)->Some_0.0
}

/// The date label that the `i`-th name carries.
pub open spec fn name_label(names: Seq<String>, i: int) -> Seq<char> {
    parsed_name(names[i]@)->Some_0.1
}

pub open spec fn stamp_of(s: Stamp, names: Seq<String>) -> bool {
    &&& s.index < names.len()
    &&& parsed_name(names[s.index as int]@) == Some((s.time as int, s.label@))
}

/// Step 1: with no lookahead buffered, the next input, if any, becomes the
/// lookahead.
pub open spec fn after_pull(v: CursorView, n: int) -> CursorView {
    if v.lookahead is None {
        CursorView {
            lookahead: if v.next < n { Some(v.next) } else { None },
            next: if v.next < n { v.next + 1 } else { v.next },
            ..v
        }
    } else {
        v
    }
}

/// Pulling the next input fails when its name is malformed.
pub open spec fn pull_fails(v: CursorView, names: Seq<String>) -> bool {
    v.lookahead is None && v.next < names.len() && parsed_name(names[v.next]@) is None
}

/// Step 2: a lookahead with another instant becomes active once its instant
/// is behind the instant being rendered. Until then the active input is
/// reused, so where inputs are sparser than the step, frames repeat; a
/// lookahead with the active input's own instant is never promoted.
pub open spec fn after_promote(v: CursorView, names: Seq<String>) -> CursorView {
    match v.lookahead {
        Some(j) => if name_time(names, j) != name_time(names, v.active) && name_time(names, j)
            < v.tick {
            CursorView { active: j, lookahead: None, ..v }
        } else {
            v
        },
        None => v,
    }
}

/// The cursor after rendering one instant.
pub open spec fn next_view(v: CursorView, names: Seq<String>, tl: Timeline) -> CursorView {
    let p = after_promote(after_pull(v, names.len() as int), names);
    CursorView { tick: v.tick + tl.step, finished: v.tick + tl.step > tl.end, ..p }
}

/// The frame rendered for the cursor's instant.
pub open spec fn frame_for(f: Frame, v: CursorView, names: Seq<String>, tl: Timeline) -> bool {
    let pulled = after_pull(v, names.len() as int);
    let p = after_promote(pulled, names);
    &&& f.instant == v.tick
    &&& f.source == p.active
    &&& f.label@ == name_label(names, p.active)
    &&& f.pixels == p.active
    &&& f.decode == (v.lookahead is None || p.active != v.active)
    &&& f.night == in_night(v.tick, tl.night_start as int, tl.night_end as int)
}

impl Cursor {
    pub open spec fn wf(&self, names: Seq<String>, tl: Timeline) -> bool {
        &&& tl.wf()
        &&& stamp_of(self.active, names)
        &&& self.active.index < self.next <= names.len()
        &&& (self.lookahead matches Some(s) ==> stamp_of(s, names) && s.index + 1 == self.next
            && self.active.index < s.index)
        &&& (!self.finished ==> tl.start <= self.tick <= tl.end)
    }

    /// Starts at the first input and the first instant of the timeline.
    pub fn new(names: &Vec<String>, tl: &Timeline) -> (r: Result<Cursor, Error>)
        requires
            tl.wf(),
        ensures
            names@.len() == 0 ==> r == Err::<Cursor, Error>(Error::NoImages),
            names@.len() > 0 && parsed_name(names@[0]@) is None ==> (r matches Err(
                Error::MalformedName(n),
            ) && n@ == names@[0]@),
            names@.len() > 0 && parsed_name(names@[0]@) is Some ==> (r matches Ok(c) && c.wf(
                names@,
                *tl,
            ) && c@ == (CursorView {
                tick: tl.start as int,
                active: 0,
                lookahead: None,
                next: 1,
                finished: tl.start > tl.end,
            })),
    {
        if names.len() == 0 {
            return Err(Error::NoImages);
        }
        let (time, label) = parse_date(names[0].as_str())?;
        Ok(
            Cursor {
                tick: tl.start,
                active: Stamp { index: 0, time, label },
                lookahead: None,
                next: 1,
                finished: tl.start > tl.end,
            },
        )
    }

    /// Renders the cursor's instant, if the timeline is not exhausted, and
    /// moves to the next instant. Fails where the next input's name is
    /// malformed.
    pub fn tick(&mut self, names: &Vec<String>, tl: &Timeline) -> (r: Result<Option<Frame>, Error>)
        requires
            old(self).wf(names@, *tl),
        ensures
            old(self).finished ==> (r matches Ok(None) && final(self)@ == old(self)@),
            !old(self).finished && pull_fails(old(self)@, names@) ==> (r matches Err(
                Error::MalformedName(n),
            ) && n@ == names@[old(self).next as int]@),
            !old(self).finished && !pull_fails(old(self)@, names@) ==> (r matches Ok(Some(f))
                && frame_for(f, old(self)@, names@, *tl) && final(self)@ == next_view(
                old(self)@,
                names@,
                *tl,
            )),
            r is Ok ==> final(self).wf(names@, *tl),
    {
        if self.finished {
            return Ok(None);
        }
        let pulled = self.lookahead.is_none();
        if pulled {
            if self.next < names.len() {
                let (time, label) = parse_date(names[self.next].as_str())?;
                self.lookahead = Some(Stamp { index: self.next, time, label });
                self.next = self.next + 1;
            }
        }
        let promote = match &self.lookahead {
            Some(s) => s.time != self.active.time && s.time < self.tick,
            None => false,
        };
        if promote {
            let taken = self.lookahead.take();
            if let Some(s) = taken {
                self.active = s;
            }
        }
        let frame = Frame {
            instant: self.tick,
            source: self.active.index,
            label: self.active.label.clone(),
            pixels: self.active.index,
            decode: pulled || promote,
            night: is_night(self.tick, tl.night_start, tl.night_end),
        };
        self.tick = self.tick + tl.step;
        self.finished = self.tick > tl.end;
        Ok(Some(frame))
    }
}

/// How many instants the timeline holds.
pub open spec fn tick_count(tl: Timeline) -> int {
    if tl.start > tl.end {
        0
    } else {
        (tl.end - tl.start) / (tl.step as int) + 1
    }
}

pub open spec fn initial_view(tl: Timeline) -> CursorView {
    CursorView {
        tick: tl.start as int,
        active: 0,
        lookahead: None,
        next: 1,
        finished: tl.start > tl.end,
    }
}

/// The cursor after `k` instants.
pub open spec fn view_at(names: Seq<String>, tl: Timeline, k: nat) -> CursorView
    decreases k,
{
    if k == 0 {
        initial_view(tl)
    } else {
        next_view(view_at(names, tl, (k - 1) as nat), names, tl)
    }
}

/// The `k`-th instant is past the end exactly when `k` instants fill the timeline.
proof fn lemma_count(start: int, end: int, step: int, k: int)
    requires
        0 < step,
        start <= end,
        0 <= k,
    ensures
        (start + k * step > end) == (k >= (end - start) / step + 1),
{
    let q = (end - start) / step;
    let r = (end - start) % step;
    assert(end - start == q * step + r && 0 <= r < step) by (nonlinear_arith)
        requires
            0 < step,
            q == (end - start) / step,
            r == (end - start) % step,
    ;
    if k <= q {
        assert(k * step <= q * step) by (nonlinear_arith)
            requires
                k <= q,
                0 < step,
        ;
    } else {
        assert(k * step >= (q + 1) * step) by (nonlinear_arith)
            requires
                k >= q + 1,
                0 < step,
        ;
        assert((q + 1) * step == q * step + step) by (nonlinear_arith);
    }
}

/// The instant and the exhaustion of the cursor after `k` instants.
proof fn lemma_view_at_tick(names: Seq<String>, tl: Timeline, k: nat)
    requires
        tl.wf(),
        k <= tick_count(tl),
    ensures
        view_at(names, tl, k).tick == tl.start + k * tl.step,
        view_at(names, tl, k).finished == (k >= tick_count(tl)),
    decreases k,
{
    if k > 0 {
        lemma_view_at_tick(names, tl, (k - 1) as nat);
        assert(tl.start + (k - 1) * tl.step + tl.step == tl.start + k * tl.step) by (
        nonlinear_arith);
    }
    if tl.start <= tl.end {
        lemma_count(tl.start as int, tl.end as int, tl.step as int, k as int);
    }
}

/// The frames and the stopping error that walking the whole timeline over
/// `names` gives: no input, or a malformed name met on the way (the frames
/// before it are kept).
pub open spec fn is_plan(
    names: Seq<String>,
    tl: Timeline,
    frames: Seq<Frame>,
    err: Option<Error>,
) -> bool {
    &&& names.len() == 0 ==> frames.len() == 0 && err == Some(Error::NoImages)
    &&& names.len() > 0 && parsed_name(names[0]@) is None ==> frames.len() == 0 && (err matches Some(
        Error::MalformedName(n),
    ) && n@ == names[0]@)
    &&& names.len() > 0 && parsed_name(names[0]@) is Some ==> {
        &&& frames.len() <= tick_count(tl)
        &&& forall|k: int|
            0 <= k < frames.len() ==> #[trigger] frames[k].instant == tl.start + k * tl.step
                && !pull_fails(view_at(names, tl, k as nat), names) && frame_for(
                frames[k],
                view_at(names, tl, k as nat),
                names,
                tl,
            )
        &&& err is None ==> frames.len() == tick_count(tl)
        &&& err is Some ==> {
            let v = view_at(names, tl, frames.len() as nat);
            &&& frames.len() < tick_count(tl)
            &&& pull_fails(v, names)
            &&& err matches Some(Error::MalformedName(n)) && n@ == names[v.next]@
        }
    }
}

/// Walks the whole timeline: every frame in order, and the error that
/// stopped the walk, if any.
pub fn plan(names: &Vec<String>, tl: &Timeline) -> (r: (Vec<Frame>, Option<Error>))
    requires
        tl.wf(),
    ensures
        is_plan(names@, *tl, r.0@, r.1),
{
    let mut frames: Vec<Frame> = Vec::new();
    let mut cursor = match Cursor::new(names, tl) {
        Ok(c) => c,
        Err(e) => {
            return (frames, Some(e));
        },
    };
    proof {
        lemma_view_at_tick(names@, *tl, 0);
    }
    loop
        invariant
            tl.wf(),
            names@.len() > 0 && parsed_name(names@[0]@) is Some,
            cursor.wf(names@, *tl),
            frames@.len() <= tick_count(*tl),
            cursor@ == view_at(names@, *tl, frames@.len() as nat),
            forall|k: int|
                0 <= k < frames@.len() ==> #[trigger] frames@[k].instant == tl.start + k * tl.step
                    && !pull_fails(view_at(names@, *tl, k as nat), names@) && frame_for(
                    frames@[k],
                    view_at(names@, *tl, k as nat),
                    names@,
                    *tl,
                ),
        decreases tick_count(*tl) - frames@.len(),
    {
        proof {
            lemma_view_at_tick(names@, *tl, frames@.len() as nat);
        }
        let ghost before = cursor@;
        match cursor.tick(names, tl) {
            Ok(Some(f)) => {
                frames.push(f);
                proof {
                    assert(view_at(names@, *tl, frames@.len() as nat) == next_view(
                        before,
                        names@,
                        *tl,
                    ));
                }
            },
            Ok(None) => {
                return (frames, None);
            },
            Err(e) => {
                return (frames, Some(e));
            },
        }
    }
}

/// The input whose name a frame carries when rendered from cursor state `v`.
pub open spec fn frame_source(v: CursorView, names: Seq<String>) -> int {
    after_promote(after_pull(v, names.len() as int), names).active
}

/// An input never becomes active before its own instant: the input a frame
/// carries is the one active before, or one whose instant is earlier than
/// the frame's instant.
pub proof fn lemma_never_early(c: Cursor, names: Seq<String>, tl: Timeline)
    requires
        c.wf(names, tl),
    ensures
        frame_source(c@, names) == c@.active || name_time(names, frame_source(c@, names))
            < c@.tick,
{
}

/// The walk over two inputs with distinct instants, after `k >= 1` instants.
proof fn lemma_two_inputs_state(names: Seq<String>, tl: Timeline, k: nat)
    requires
        tl.wf(),
        names.len() == 2,
        parsed_name(names[0]@) is Some,
        parsed_name(names[1]@) is Some,
        name_time(names, 0) != name_time(names, 1),
        1 <= k <= tick_count(tl),
    ensures
        view_at(names, tl, k).next == 2,
        tl.start + (k - 1) * tl.step > name_time(names, 1) ==> view_at(names, tl, k).active == 1
            && view_at(names, tl, k).lookahead is None,
        tl.start + (k - 1) * tl.step <= name_time(names, 1) ==> view_at(names, tl, k).active == 0
            && view_at(names, tl, k).lookahead == Some(1int),
    decreases k,
{
    lemma_view_at_tick(names, tl, (k - 1) as nat);
    if k > 1 {
        lemma_two_inputs_state(names, tl, (k - 1) as nat);
        assert(tl.start + (k - 1) * tl.step == tl.start + (k - 2) * tl.step + tl.step) by (
        nonlinear_arith);
    }
}

/// With two inputs whose instants differ, the second at `t2`, the frame at
/// every instant up to and including `t2` carries the first input, and the
/// frame at every instant after `t2` carries the second: the switch happens
/// at the first instant past `t2`.
pub proof fn lemma_two_inputs_switch(names: Seq<String>, tl: Timeline, k: nat)
    requires
        tl.wf(),
        names.len() == 2,
        parsed_name(names[0]@) is Some,
        parsed_name(names[1]@) is Some,
        name_time(names, 0) != name_time(names, 1),
        k < tick_count(tl),
    ensures
        frame_source(view_at(names, tl, k), names) == if tl.start + k * tl.step > name_time(
            names,
            1,
        ) {
            1int
        } else {
            0int
        },
{
    lemma_view_at_tick(names, tl, k);
    if k >= 1 {
        lemma_two_inputs_state(names, tl, k);
        assert(tl.start + k * tl.step == tl.start + (k - 1) * tl.step + tl.step) by (
        nonlinear_arith);
    }
}

/// What a frame says, with its label as text.
pub open spec fn frame_view(f: Frame) -> (int, int, Seq<char>, int, bool, bool) {
    (f.instant as int, f.source as int, f.label@, f.pixels as int, f.decode, f.night)
}

/// Two stopping errors that say the same: the same kind, and for a
/// malformed name the same name.
pub open spec fn same_error(e1: Option<Error>, e2: Option<Error>) -> bool {
    match (e1, e2) {
        (Some(Error::MalformedName(a)), Some(Error::MalformedName(b))) => a@ == b@,
        _ => e1 == e2,
    }
}

/// Walking the same names over the same timeline twice gives the same
/// frames, in the same order, and the same error.
pub proof fn lemma_plan_deterministic(
    names: Seq<String>,
    tl: Timeline,
    frames1: Seq<Frame>,
    err1: Option<Error>,
    frames2: Seq<Frame>,
    err2: Option<Error>,
)
    requires
        tl.wf(),
        is_plan(names, tl, frames1, err1),
        is_plan(names, tl, frames2, err2),
    ensures
        frames1.len() == frames2.len(),
        forall|k: int| 0 <= k < frames1.len() ==> frame_view(#[trigger] frames1[k]) == frame_view(
            frames2[k],
        ),
        same_error(err1, err2),
{
    if names.len() > 0 && parsed_name(names[0]@) is Some {
        let l1 = frames1.len() as int;
        let l2 = frames2.len() as int;
        if l1 < l2 {
            assert(frames2[l1].instant == tl.start + l1 * tl.step);
        } else if l2 < l1 {
            assert(frames1[l2].instant == tl.start + l2 * tl.step);
        }
        assert forall|k: int| 0 <= k < frames1.len() implies frame_view(#[trigger] frames1[k])
            == frame_view(frames2[k]) by {
            assert(frames1[k].instant == tl.start + k * tl.step);
            assert(frames2[k].instant == tl.start + k * tl.step);
        }
    }
}

proof fn lemma_next_positive(names: Seq<String>, tl: Timeline, k: nat)
    ensures
        view_at(names, tl, k).next >= 1,
    decreases k,
{
    if k > 0 {
        lemma_next_positive(names, tl, (k - 1) as nat);
    }
}

/// A whole day from midnight to 23:59:59 at half-hour steps, over input
/// names that all carry a timestamp, gives exactly 48 frames and no error,
/// each frame showing the input whose name it carries; with equal night
/// bounds every frame is a night frame.
pub proof fn lemma_full_day_half_hours(
    names: Seq<String>,
    tl: Timeline,
    frames: Seq<Frame>,
    err: Option<Error>,
)
    requires
        tl.wf(),
        tl.end == tl.start + 86399,
        tl.step == 1800,
        names.len() > 0,
        forall|i: int| 0 <= i < names.len() ==> #[trigger] parsed_name(names[i]@) is Some,
        is_plan(names, tl, frames, err),
    ensures
        err is None,
        frames.len() == 48,
        forall|k: int| 0 <= k < frames.len() ==> #[trigger] frames[k].pixels == frames[k].source,
        tl.night_start == tl.night_end ==> forall|k: int|
            0 <= k < frames.len() ==> #[trigger] frames[k].night,
{
    assert(parsed_name(names[0]@) is Some);
    assert(tick_count(tl) == 48);
    if err is Some {
        let v = view_at(names, tl, frames.len() as nat);
        assert(pull_fails(v, names));
        lemma_next_positive(names, tl, frames.len() as nat);
        assert(parsed_name(names[v.next]@) is Some);
    }
    assert forall|k: int| 0 <= k < frames.len() implies #[trigger] frames[k].pixels
        == frames[k].source by {
        assert(frames[k].instant == tl.start + k * tl.step);
    }
    if tl.night_start == tl.night_end {
        assert forall|k: int| 0 <= k < frames.len() implies #[trigger] frames[k].night by {
            assert(frames[k].instant == tl.start + k * tl.step);
            lemma_equal_bounds_all_night(
                view_at(names, tl, k as nat).tick,
                tl.night_start as int,
            );
        }
    }
}

} // verus!
