//! The environment: fixtures, checkpoints and tracks, driven along the
//! timeline by `run_to_time`.
use vstd::prelude::*;
use crate::fixture::FixtureID;
use crate::fixture_set::{FixtureSet, action_stack};
use crate::generator::Generator;
use crate::parameter::Param;
use crate::patch::FixtureProfile;
use crate::history::History;
use crate::patch::Patch;
use crate::time::{NANOS_PER_MS, Time};
use crate::track::Track;

verus! {

/// The time of millisecond `m`, at which the actions of that millisecond are applied.
pub open spec fn at_ms(m: int) -> Time {
    Time { nanoseconds: (m * NANOS_PER_MS) as u128 }
}

/// Whether action `j` of `track` is scheduled at millisecond `m` and is due then.
pub open spec fn due_at(track: Track, j: int, m: int) -> bool {
    track.actions@[j].time.ms() == m && track.offset.ms() <= m
}

/// Whether action `k` of track `i` stands applied and is scheduled at or
/// before `time`.
pub open spec fn checkpointed_by(tracks: Seq<Track>, i: int, k: int, time: Time) -> bool {
    &&& 0 <= i < tracks.len()
    &&& 0 <= k < tracks[i].actions@.len()
    &&& tracks[i].actions@[k].history.is_some()
    &&& tracks[i].actions@[k].time.ms() <= time.ms()
}

/// Whether action `k` of track `i` is the one whose checkpoint a move back to
/// `time` restores: applied, at or before `time`, at the latest such
/// millisecond, on the first track that has one there, and the last such in
/// that track's order.
pub open spec fn restore_point(tracks: Seq<Track>, i: int, k: int, time: Time) -> bool {
    &&& checkpointed_by(tracks, i, k, time)
    &&& forall|i2: int, k2: int|
        #[trigger] checkpointed_by(tracks, i2, k2, time) ==> tracks[i2].actions@[k2].time.ms()
            <= tracks[i].actions@[k].time.ms()
    &&& forall|i2: int, k2: int|
        i2 < i && #[trigger] checkpointed_by(tracks, i2, k2, time) ==> tracks[i2].actions@[k2].time.ms()
            < tracks[i].actions@[k].time.ms()
    &&& forall|k2: int| k < k2 ==> !#[trigger] checkpointed_by(tracks, i, k2, time)
}

/// Whether no action scheduled at millisecond `m` has run.
pub open spec fn unrun_at(tracks: Seq<Track>, m: int) -> bool {
    forall|i: int, j: int|
        0 <= i < tracks.len() && 0 <= j < tracks[i].actions@.len() && tracks[i].actions@[j].time.ms()
            == m ==> #[trigger] tracks[i].actions@[j].history.is_none()
}

/// Whether some track has an action due at millisecond `m`.
pub open spec fn group_at(tracks: Seq<Track>, m: int) -> bool {
    exists|i: int, j: int|
        0 <= i < tracks.len() && 0 <= j < tracks[i].actions@.len() && due_at(tracks[i], j, m)
}

/// A parameter's generators of fixture `id` after the first `n` actions of
/// `track` that are due at millisecond `m` are applied.
pub open spec fn track_stack(
    track: Track,
    s: Seq<Generator>,
    m: int,
    ids: Set<FixtureID>,
    id: FixtureID,
    p: Param,
    profile: Option<FixtureProfile>,
    n: nat,
) -> Seq<Generator>
    decreases n,
{
    if n == 0 || n > track.actions@.len() {
        s
    } else {
        let before = track_stack(track, s, m, ids, id, p, profile, (n - 1) as nat);
        if due_at(track, n - 1, m) {
            action_stack(
                before,
                track.actions@[n - 1].action.apply_groups@,
                ids,
                id,
                p,
                profile,
                at_ms(m),
            )
        } else {
            before
        }
    }
}

/// The same after every due action of the first `n` tracks, track by track.
pub open spec fn tracks_stack(
    tracks: Seq<Track>,
    s: Seq<Generator>,
    m: int,
    ids: Set<FixtureID>,
    id: FixtureID,
    p: Param,
    profile: Option<FixtureProfile>,
    n: nat,
) -> Seq<Generator>
    decreases n,
{
    if n == 0 || n > tracks.len() {
        s
    } else {
        track_stack(
            tracks[n - 1],
            tracks_stack(tracks, s, m, ids, id, p, profile, (n - 1) as nat),
            m,
            ids,
            id,
            p,
            profile,
            tracks[n - 1].actions@.len(),
        )
    }
}

/// A parameter's generators of fixture `id` when the show has been played
/// straight through every millisecond below `n`: starting from none, each
/// millisecond's due actions applied in track order.
pub open spec fn replay(
    tracks: Seq<Track>,
    n: nat,
    ids: Set<FixtureID>,
    id: FixtureID,
    p: Param,
    profile: Option<FixtureProfile>,
) -> Seq<Generator>
    decreases n,
{
    if n == 0 {
        Seq::empty()
    } else {
        tracks_stack(
            tracks,
            replay(tracks, (n - 1) as nat, ids, id, p, profile),
            n - 1,
            ids,
            id,
            p,
            profile,
            tracks.len(),
        )
    }
}

/// A track with nothing due at millisecond `m` changes no stack.
proof fn lemma_track_idle(
    track: Track,
    s: Seq<Generator>,
    m: int,
    ids: Set<FixtureID>,
    id: FixtureID,
    p: Param,
    profile: Option<FixtureProfile>,
    n: nat,
)
    requires
        forall|j: int| 0 <= j < track.actions@.len() ==> !due_at(track, j, m),
    ensures
        track_stack(track, s, m, ids, id, p, profile, n) == s,
    decreases n,
{
    if n > 0 && n <= track.actions@.len() {
        lemma_track_idle(track, s, m, ids, id, p, profile, (n - 1) as nat);
    }
}

/// With nothing due at millisecond `m` on any track, no stack changes.
proof fn lemma_tracks_idle(
    tracks: Seq<Track>,
    s: Seq<Generator>,
    m: int,
    ids: Set<FixtureID>,
    id: FixtureID,
    p: Param,
    profile: Option<FixtureProfile>,
    n: nat,
)
    requires
        !group_at(tracks, m),
    ensures
        tracks_stack(tracks, s, m, ids, id, p, profile, n) == s,
    decreases n,
{
    if n > 0 && n <= tracks.len() {
        lemma_tracks_idle(tracks, s, m, ids, id, p, profile, (n - 1) as nat);
        let i = n - 1;
        assert forall|j: int| 0 <= j < tracks[i].actions@.len() implies !due_at(tracks[i], j, m) by {
            if due_at(tracks[i], j, m) {
                assert(group_at(tracks, m));
            }
        }
        lemma_track_idle(
            tracks[i],
            tracks_stack(tracks, s, m, ids, id, p, profile, (n - 1) as nat),
            m,
            ids,
            id,
            p,
            profile,
            tracks[i].actions@.len(),
        );
    }
}

/// Milliseconds with nothing due change nothing: the replay through `to` is
/// the replay through `from` when no action is due from `from` up to `to`.
proof fn lemma_replay_skip(
    tracks: Seq<Track>,
    from: nat,
    to: nat,
    ids: Set<FixtureID>,
    id: FixtureID,
    p: Param,
    profile: Option<FixtureProfile>,
)
    requires
        from <= to,
        forall|m: int| from <= m < to ==> !group_at(tracks, m),
    ensures
        replay(tracks, to, ids, id, p, profile) == replay(tracks, from, ids, id, p, profile),
    decreases to - from,
{
    if from < to {
        lemma_replay_skip(tracks, from, (to - 1) as nat, ids, id, p, profile);
        lemma_tracks_idle(
            tracks,
            replay(tracks, (to - 1) as nat, ids, id, p, profile),
            to - 1,
            ids,
            id,
            p,
            profile,
            tracks.len(),
        );
    }
}

/// The replay reads only the schedule: tracks with the same actions at the
/// same times replay alike, whatever their marks.
proof fn lemma_track_stack_schedule(
    a: Track,
    b: Track,
    s: Seq<Generator>,
    m: int,
    ids: Set<FixtureID>,
    id: FixtureID,
    p: Param,
    profile: Option<FixtureProfile>,
    n: nat,
)
    requires
        a.same_schedule(b),
    ensures
        track_stack(a, s, m, ids, id, p, profile, n) == track_stack(b, s, m, ids, id, p, profile, n),
    decreases n,
{
    if n > 0 && n <= a.actions@.len() {
        lemma_track_stack_schedule(a, b, s, m, ids, id, p, profile, (n - 1) as nat);
        assert(a.actions@[n - 1].time == b.actions@[n - 1].time);
    }
}

proof fn lemma_tracks_stack_schedule(
    a: Tracks,
    b: Tracks,
    s: Seq<Generator>,
    m: int,
    ids: Set<FixtureID>,
    id: FixtureID,
    p: Param,
    profile: Option<FixtureProfile>,
    n: nat,
)
    requires
        a.same_schedule(b),
    ensures
        tracks_stack(a.tracks@, s, m, ids, id, p, profile, n) == tracks_stack(
            b.tracks@,
            s,
            m,
            ids,
            id,
            p,
            profile,
            n,
        ),
    decreases n,
{
    if n > 0 && n <= a.tracks@.len() {
        lemma_tracks_stack_schedule(a, b, s, m, ids, id, p, profile, (n - 1) as nat);
        let i = n - 1;
        assert(a.tracks@[i].same_schedule(b.tracks@[i]));
        lemma_track_stack_schedule(
            a.tracks@[i],
            b.tracks@[i],
            tracks_stack(a.tracks@, s, m, ids, id, p, profile, (n - 1) as nat),
            m,
            ids,
            id,
            p,
            profile,
            a.tracks@[i].actions@.len(),
        );
    }
}

/// Tracks with the same schedule have something due at the same milliseconds.
pub proof fn lemma_group_at_schedule(a: Tracks, b: Tracks, m: int)
    requires
        a.same_schedule(b),
    ensures
        group_at(a.tracks@, m) == group_at(b.tracks@, m),
{
    if group_at(a.tracks@, m) {
        let (i, j) = choose|i: int, j: int|
            0 <= i < a.tracks@.len() && 0 <= j < a.tracks@[i].actions@.len() && due_at(a.tracks@[i], j, m);
        assert(a.tracks@[i].same_schedule(b.tracks@[i]));
        assert(a.tracks@[i].actions@[j].time == b.tracks@[i].actions@[j].time);
        assert(due_at(b.tracks@[i], j, m));
    }
    if group_at(b.tracks@, m) {
        let (i, j) = choose|i: int, j: int|
            0 <= i < b.tracks@.len() && 0 <= j < b.tracks@[i].actions@.len() && due_at(b.tracks@[i], j, m);
        assert(a.tracks@[i].same_schedule(b.tracks@[i]));
        assert(a.tracks@[i].actions@[j].time == b.tracks@[i].actions@[j].time);
        assert(due_at(a.tracks@[i], j, m));
    }
}

/// The number of milliseconds below `n` at which something is due: the
/// checkpoints a show played straight through `n` has recorded.
pub open spec fn groups_below(tracks: Seq<Track>, n: nat) -> nat
    decreases n,
{
    if n == 0 {
        0
    } else {
        groups_below(tracks, (n - 1) as nat) + if group_at(tracks, n - 1) {
            1nat
        } else {
            0nat
        }
    }
}

/// Milliseconds with nothing due add no checkpoint.
proof fn lemma_groups_below_skip(tracks: Seq<Track>, from: nat, to: nat)
    requires
        from <= to,
        forall|m: int| from <= m < to ==> !group_at(tracks, m),
    ensures
        groups_below(tracks, to) == groups_below(tracks, from),
    decreases to - from,
{
    if from < to {
        lemma_groups_below_skip(tracks, from, (to - 1) as nat);
    }
}

/// Tracks with the same schedule count the same checkpoints.
proof fn lemma_groups_below_schedule(a: Tracks, b: Tracks, n: nat)
    requires
        a.same_schedule(b),
    ensures
        groups_below(a.tracks@, n) == groups_below(b.tracks@, n),
    decreases n,
{
    if n > 0 {
        lemma_groups_below_schedule(a, b, (n - 1) as nat);
        lemma_group_at_schedule(a, b, n - 1);
    }
}

/// Replays of tracks with the same schedule agree.
pub proof fn lemma_replay_schedule(
    a: Tracks,
    b: Tracks,
    n: nat,
    ids: Set<FixtureID>,
    id: FixtureID,
    p: Param,
    profile: Option<FixtureProfile>,
)
    requires
        a.same_schedule(b),
    ensures
        replay(a.tracks@, n, ids, id, p, profile) == replay(b.tracks@, n, ids, id, p, profile),
    decreases n,
{
    if n > 0 {
        lemma_replay_schedule(a, b, (n - 1) as nat, ids, id, p, profile);
        lemma_tracks_stack_schedule(
            a,
            b,
            replay(a.tracks@, (n - 1) as nat, ids, id, p, profile),
            n - 1,
            ids,
            id,
            p,
            profile,
            a.tracks@.len(),
        );
    }
}

/// Every track of a show.
pub struct Tracks {
    pub tracks: Vec<Track>,
}

impl Tracks {
    pub open spec fn wf(self) -> bool {
        forall|i: int| 0 <= i < self.tracks@.len() ==> (#[trigger] self.tracks@[i]).wf()
    }

    /// Whether action `k` of track `i` is due at `time` and has not run.
    pub open spec fn unrun(self, i: int, k: int, time: Time) -> bool {
        &&& 0 <= i < self.tracks@.len()
        &&& 0 <= k < self.tracks@[i].actions@.len()
        &&& self.tracks@[i].unrun(k, time)
    }

    /// Whether action `k` of track `i` is due at `time`.
    pub open spec fn due(self, i: int, k: int, time: Time) -> bool {
        &&& 0 <= i < self.tracks@.len()
        &&& 0 <= k < self.tracks@[i].actions@.len()
        &&& self.tracks@[i].due(k, time)
    }

    /// Whether action `k` of track `i` stands applied.
    pub open spec fn applied(self, i: int, k: int) -> bool {
        self.tracks@[i].actions@[k].history.is_some()
    }

    /// The milliseconds at which some action is due at `time` and has not run.
    pub open spec fn unrun_times(self, time: Time) -> Set<int> {
        Set::new(
            |ms: int|
                exists|i: int, k: int|
                    self.unrun(i, k, time) && self.tracks@[i].actions@[k].time.ms() == ms,
        )
    }

    /// The same tracks with the same actions at the same times.
    pub open spec fn same_schedule(self, other: Tracks) -> bool {
        &&& self.tracks@.len() == other.tracks@.len()
        &&& forall|i: int|
            0 <= i < self.tracks@.len() ==> (#[trigger] self.tracks@[i]).same_schedule(
                other.tracks@[i],
            )
    }

    pub fn new() -> (r: Tracks)
        ensures
            r.wf(),
            r.tracks@.len() == 0,
    {
        Tracks { tracks: Vec::new() }
    }

    pub fn push(&mut self, value: Track)
        ensures
            final(self).tracks@ == old(self).tracks@.push(value),
    {
        self.tracks.push(value);
    }

    pub fn len(&self) -> (r: usize)
        ensures
            r == self.tracks@.len(),
    {
        self.tracks.len()
    }

    /// Every track, in the order they were added.
    pub fn active(&self) -> (r: &Vec<Track>)
        ensures
            *r == self.tracks,
    {
        &self.tracks
    }

    /// Clears every action's mark.
    fn clear_all(&mut self)
        requires
            old(self).wf(),
        ensures
            final(self).wf(),
            final(self).same_schedule(*old(self)),
            forall|i: int, k: int|
                0 <= i < final(self).tracks@.len() && 0 <= k
                    < final(self).tracks@[i].actions@.len() ==> !final(self).applied(i, k),
    {
        let mut i: usize = 0;
        while i < self.tracks.len()
            invariant
                i <= self.tracks@.len(),
                old(self).wf(),
                self.wf(),
                self.same_schedule(*old(self)),
                forall|j: int, k: int|
                    0 <= j < i && 0 <= k < self.tracks@[j].actions@.len() ==> !#[trigger] self.applied(j, k),
            decreases self.tracks@.len() - i,
        {
            let ghost prev = *self;
            let mut track = Track::new();
            self.tracks.set_and_swap(i, &mut track);
            track.clear_history();
            let ghost cleared = track;
            self.tracks.set(i, track);
            proof {
                assert(self.tracks@[i as int].wf()) by {
                    assert(old(self).tracks@[i as int].wf());
                    assert(prev.tracks@[i as int].same_schedule(old(self).tracks@[i as int]));
                }
                assert forall|j: int| 0 <= j < self.tracks@.len() && j != i implies self.tracks@[j]
                    == prev.tracks@[j] by {}
                assert(self.tracks@[i as int] == cleared);
                assert forall|k: int| 0 <= k < cleared.actions@.len() implies cleared.actions@[k].time
                    == old(self).tracks@[i as int].actions@[k].time by {
                    assert(cleared.actions@[k].time == prev.tracks@[i as int].actions@[k].time);
                    assert(prev.tracks@[i as int].actions@[k].time == old(self).tracks@[i as int].actions@[k].time);
                }
                assert forall|j: int, k: int|
                    0 <= j < i + 1 && 0 <= k < self.tracks@[j].actions@.len() implies !self.applied(
                    j,
                    k,
                ) by {
                    if j < i {
                        assert(self.tracks@[j] == prev.tracks@[j]);
                        assert(!prev.applied(j, k));
                    } else {
                        assert(cleared.same_schedule(prev.tracks@[i as int]));
                        assert(cleared.actions@[k].history.is_none());
                    }
                }
            }
            i = i + 1;
        }
    }

    /// Clears the mark of every action at or after `time`, and of every
    /// action run from checkpoint `limit` or a later one.
    fn clear_after(&mut self, time: Time, limit: usize)
        requires
            old(self).wf(),
        ensures
            final(self).wf(),
            final(self).same_schedule(*old(self)),
            forall|i: int, k: int|
                0 <= i < final(self).tracks@.len() && 0 <= k
                    < final(self).tracks@[i].actions@.len() ==> final(self).tracks@[i].actions@[k].history
                    == if old(self).tracks@[i].actions@[k].time.ms() >= time.ms() || (old(
                    self,
                ).tracks@[i].actions@[k].history.is_some() && old(self).tracks@[i].actions@[k].history.unwrap()
                    >= limit) {
                    None
                } else {
                    old(self).tracks@[i].actions@[k].history
                },
    {
        let mut i: usize = 0;
        while i < self.tracks.len()
            invariant
                i <= self.tracks@.len(),
                old(self).wf(),
                self.wf(),
                self.same_schedule(*old(self)),
                forall|j: int, k: int|
                    0 <= j < self.tracks@.len() && 0 <= k < self.tracks@[j].actions@.len()
                        ==> self.tracks@[j].actions@[k].history == if j < i
                        && (old(self).tracks@[j].actions@[k].time.ms() >= time.ms() || (old(
                        self,
                    ).tracks@[j].actions@[k].history.is_some()
                        && old(self).tracks@[j].actions@[k].history.unwrap() >= limit)) {
                        None
                    } else {
                        old(self).tracks@[j].actions@[k].history
                    },
            decreases self.tracks@.len() - i,
        {
            let ghost prev = *self;
            let mut track = Track::new();
            self.tracks.set_and_swap(i, &mut track);
            track.clear_history_from(time, limit);
            let ghost cleared = track;
            self.tracks.set(i, track);
            proof {
                assert(self.tracks@[i as int].wf()) by {
                    assert(old(self).tracks@[i as int].wf());
                    assert(prev.tracks@[i as int].same_schedule(old(self).tracks@[i as int]));
                }
                assert forall|j: int| 0 <= j < self.tracks@.len() && j != i implies self.tracks@[j]
                    == prev.tracks@[j] by {}
                assert(self.tracks@[i as int] == cleared);
                assert forall|k: int| 0 <= k < cleared.actions@.len() implies cleared.actions@[k].time
                    == old(self).tracks@[i as int].actions@[k].time by {
                    assert(cleared.actions@[k].time == prev.tracks@[i as int].actions@[k].time);
                    assert(prev.tracks@[i as int].actions@[k].time == old(self).tracks@[i as int].actions@[k].time);
                }
                assert forall|j: int, k: int|
                    0 <= j < self.tracks@.len() && 0 <= k < self.tracks@[j].actions@.len()
                        implies self.tracks@[j].actions@[k].history == if j < i + 1
                        && (old(self).tracks@[j].actions@[k].time.ms() >= time.ms() || (old(
                        self,
                    ).tracks@[j].actions@[k].history.is_some()
                        && old(self).tracks@[j].actions@[k].history.unwrap() >= limit)) {
                        None
                    } else {
                        old(self).tracks@[j].actions@[k].history
                    } by {
                    if j != i {
                        assert(self.tracks@[j] == prev.tracks@[j]);
                    } else {
                        assert(prev.tracks@[j].actions@[k].history == old(self).tracks@[j].actions@[k].history);
                        assert(cleared.same_schedule(prev.tracks@[i as int]));
                    }
                }
            }
            i = i + 1;
        }
    }

    /// Marks every action scheduled at `time` (to the millisecond) as run from
    /// checkpoint `id`.
    fn mark(&mut self, time: Time, id: usize)
        requires
            old(self).wf(),
        ensures
            final(self).wf(),
            final(self).same_schedule(*old(self)),
            forall|i: int, k: int|
                0 <= i < final(self).tracks@.len() && 0 <= k
                    < final(self).tracks@[i].actions@.len() ==> final(self).tracks@[i].actions@[k].history
                    == if old(self).tracks@[i].actions@[k].time.ms() == time.ms() {
                    Some(id)
                } else {
                    old(self).tracks@[i].actions@[k].history
                },
    {
        let mut i: usize = 0;
        while i < self.tracks.len()
            invariant
                i <= self.tracks@.len(),
                old(self).wf(),
                self.wf(),
                self.same_schedule(*old(self)),
                forall|j: int, k: int|
                    0 <= j < self.tracks@.len() && 0 <= k < self.tracks@[j].actions@.len()
                        ==> self.tracks@[j].actions@[k].history == if j < i
                        && old(self).tracks@[j].actions@[k].time.ms() == time.ms() {
                        Some(id)
                    } else {
                        old(self).tracks@[j].actions@[k].history
                    },
            decreases self.tracks@.len() - i,
        {
            let ghost prev = *self;
            let mut track = Track::new();
            self.tracks.set_and_swap(i, &mut track);
            track.set_action_history_for_time(time, id);
            let ghost cleared = track;
            self.tracks.set(i, track);
            proof {
                assert(self.tracks@[i as int].wf()) by {
                    assert(old(self).tracks@[i as int].wf());
                    assert(prev.tracks@[i as int].same_schedule(old(self).tracks@[i as int]));
                }
                assert forall|j: int| 0 <= j < self.tracks@.len() && j != i implies self.tracks@[j]
                    == prev.tracks@[j] by {}
                assert(self.tracks@[i as int] == cleared);
                assert forall|k: int| 0 <= k < cleared.actions@.len() implies cleared.actions@[k].time
                    == old(self).tracks@[i as int].actions@[k].time by {
                    assert(cleared.actions@[k].time == prev.tracks@[i as int].actions@[k].time);
                    assert(prev.tracks@[i as int].actions@[k].time == old(self).tracks@[i as int].actions@[k].time);
                }
            }
            i = i + 1;
        }
    }

    /// The distinct milliseconds at which some action is due at `time` and
    /// has not run, earliest first.
    fn unrun_times_at(&self, time: Time) -> (r: Vec<Time>)
        requires
            self.wf(),
        ensures
            forall|a: int, b: int| 0 <= a < b < r@.len() ==> r@[a].ms() < r@[b].ms(),
            forall|a: int| 0 <= a < r@.len() ==> self.unrun_times(time).contains(#[trigger] r@[a].ms()),
            forall|i: int, k: int|
                self.unrun(i, k, time) ==> exists|a: int|
                    0 <= a < r@.len() && r@[a].ms() == self.tracks@[i].actions@[k].time.ms(),
    {
        let mut times: Vec<Time> = Vec::new();
        let mut i: usize = 0;
        while i < self.tracks.len()
            invariant
                i <= self.tracks@.len(),
                self.wf(),
                forall|a: int, b: int| 0 <= a < b < times@.len() ==> times@[a].ms() < times@[b].ms(),
                forall|a: int|
                    0 <= a < times@.len() ==> self.unrun_times(time).contains(#[trigger] times@[a].ms()),
                forall|j: int, k: int|
                    j < i && self.unrun(j, k, time) ==> exists|a: int|
                        0 <= a < times@.len() && times@[a].ms()
                            == self.tracks@[j].actions@[k].time.ms(),
            decreases self.tracks@.len() - i,
        {
            let track = &self.tracks[i];
            let mut k: usize = 0;
            while k < track.actions.len()
                invariant
                    i < self.tracks@.len(),
                    *track == self.tracks@[i as int],
                    k <= track.actions@.len(),
                    forall|a: int, b: int|
                        0 <= a < b < times@.len() ==> times@[a].ms() < times@[b].ms(),
                    forall|a: int|
                        0 <= a < times@.len() ==> self.unrun_times(time).contains(
                            #[trigger] times@[a].ms(),
                        ),
                    forall|j: int, x: int|
                        (j < i || (j == i && x < k)) && self.unrun(j, x, time) ==> exists|a: int|
                            0 <= a < times@.len() && times@[a].ms()
                                == self.tracks@[j].actions@[x].time.ms(),
                decreases track.actions@.len() - k,
            {
                let action = &track.actions[k];
                if action.time.is_at_or_before(&time) && track.offset.is_at_or_before(&action.time)
                    && action.history.is_none() {
                    proof {
                        assert(self.unrun(i as int, k as int, time));
                        assert(self.unrun_times(time).contains(action.time.ms()));
                    }
                    insert_time(&mut times, action.time, Ghost(self.unrun_times(time)));
                }
                k = k + 1;
            }
            i = i + 1;
        }
        times
    }
}

/// Inserts `time` into `times`, kept strictly increasing by millisecond,
/// unless a time of that millisecond is there already.
fn insert_time(times: &mut Vec<Time>, time: Time, Ghost(allowed): Ghost<Set<int>>)
    requires
        forall|a: int, b: int| 0 <= a < b < old(times)@.len() ==> old(times)@[a].ms() < old(times)@[b].ms(),
        forall|a: int| 0 <= a < old(times)@.len() ==> allowed.contains(#[trigger] old(times)@[a].ms()),
        allowed.contains(time.ms()),
    ensures
        forall|a: int, b: int| 0 <= a < b < final(times)@.len() ==> final(times)@[a].ms() < final(times)@[b].ms(),
        forall|a: int| 0 <= a < final(times)@.len() ==> allowed.contains(#[trigger] final(times)@[a].ms()),
        exists|a: int| 0 <= a < final(times)@.len() && final(times)@[a].ms() == time.ms(),
        forall|a: int| #![trigger old(times)@[a]] 0 <= a < old(times)@.len() ==> exists|b: int|
            0 <= b < final(times)@.len() && final(times)@[b].ms() == old(times)@[a].ms(),
{
    let mut pos: usize = 0;
    while pos < times.len() && times[pos].is_before(&time)
        invariant
            pos <= times@.len(),
            forall|a: int| 0 <= a < pos ==> times@[a].ms() < time.ms(),
        decreases times@.len() - pos,
    {
        pos = pos + 1;
    }
    if pos < times.len() && times[pos].same_as(&time) {
        assert(times@[pos as int].ms() == time.ms());
        return;
    }
    let ghost before = times@;
    times.insert(pos, time);
    proof {
        let p = pos as int;
        assert(times@[p].ms() == time.ms());
        assert forall|a: int, b: int| 0 <= a < b < times@.len() implies times@[a].ms() < times@[b].ms() by {
            if b < p {
            } else if b == p {
            } else if a < p {
                assert(times@[b] == before[b - 1]);
                assert(before[p].ms() >= time.ms());
                if b - 1 > p {
                    assert(before[p].ms() < before[b - 1].ms());
                }
            } else if a == p {
                assert(times@[b] == before[b - 1]);
                assert(before[p].ms() > time.ms());
                if b - 1 > p {
                    assert(before[p].ms() < before[b - 1].ms());
                }
            } else {
                assert(times@[b] == before[b - 1]);
                assert(times@[a] == before[a - 1]);
            }
        }
        assert forall|a: int| 0 <= a < times@.len() implies allowed.contains(#[trigger] times@[a].ms()) by {
            if a < p {
                assert(times@[a] == before[a]);
            } else if a > p {
                assert(times@[a] == before[a - 1]);
            }
        }
        assert forall|a: int| #![trigger before[a]] 0 <= a < before.len() implies exists|b: int|
            0 <= b < times@.len() && times@[b].ms() == before[a].ms() by {
            if a < p {
                assert(times@[a] == before[a]);
            } else {
                assert(times@[a + 1] == before[a]);
            }
        }
    }
}

/// Sets with the same fixture ids in the same places hold the same ids.
pub proof fn lemma_same_ids_same_set(a: FixtureSet, b: FixtureSet)
    requires
        a.same_ids(b),
    ensures
        a.spec_ids() == b.spec_ids(),
{
    assert forall|x: FixtureID| a.spec_ids().contains(x) == b.spec_ids().contains(x) by {
        if a.spec_ids().contains(x) {
            let k = choose|k: int| 0 <= k < a.fixtures@.len() && a.fixtures@[k].id == x;
            assert(b.fixtures@[k].id == x);
        }
        if b.spec_ids().contains(x) {
            let k = choose|k: int| 0 <= k < b.fixtures@.len() && b.fixtures@[k].id == x;
            assert(a.fixtures@[k].id == x);
        }
    }
    assert(a.spec_ids() =~= b.spec_ids());
}

/// A show that has not run yet (fixtures without generators, no action
/// marked, no checkpoint, no playhead) is played straight through nothing.
pub proof fn lemma_fresh_show(env: Environment, patch: Patch)
    requires
        env.fixtures.pristine(),
        env.last_time.is_none(),
        env.history.history@.len() == 0,
        forall|i: int, k: int|
            0 <= i < env.tracks.tracks@.len() && 0 <= k < env.tracks.tracks@[i].actions@.len()
                ==> !env.tracks.applied(i, k),
    ensures
        env.plays_through(env.played(), patch),
{
    let tracks = env.tracks.tracks@;
    assert forall|f: int, p: Param|
        0 <= f < env.fixtures.fixtures@.len() implies #[trigger] env.fixtures.fixtures@[f].stack(p)
        == replay(
        tracks,
        0,
        env.fixtures.spec_ids(),
        env.fixtures.fixtures@[f].id,
        p,
        patch.profile_if_patched(env.fixtures.fixtures@[f].id),
    ) by {
        assert(env.fixtures.fixtures@[f].stack(p) =~= Seq::<Generator>::empty());
    }
    assert forall|i: int, j: int|
        0 <= i < tracks.len() && 0 <= j < tracks[i].actions@.len() implies !(
        #[trigger] tracks[i].actions@[j].history.is_some()) by {
        assert(!env.tracks.applied(i, j));
    }
}

/// Seeking reproduces straight playback: two runs of one show with one patch,
/// each played straight through (as `run_to_time` keeps a show that started
/// fresh, wherever its playhead went), whose playheads stand at the same
/// millisecond hold the same generators on every fixture, and so resolve to
/// the same values at every time.
pub proof fn law_seeking_matches_straight_run(a: Environment, b: Environment, patch: Patch)
    requires
        a.plays_through(a.played(), patch),
        b.plays_through(b.played(), patch),
        a.played() == b.played(),
        a.tracks.same_schedule(b.tracks),
        a.fixtures.same_ids(b.fixtures),
    ensures
        a.fixtures.same_state(b.fixtures),
        forall|f: int, p: Param, time: Time, profile: FixtureProfile|
            0 <= f < a.fixtures.fixtures@.len() ==> #[trigger] a.fixtures.fixtures@[f].resolved_value(
                p,
                time,
                profile,
            ) == b.fixtures.fixtures@[f].resolved_value(p, time, profile),
{
    lemma_same_ids_same_set(a.fixtures, b.fixtures);
    assert forall|f: int, p: Param|
        0 <= f < a.fixtures.fixtures@.len() implies #[trigger] a.fixtures.fixtures@[f].stack(p)
        == b.fixtures.fixtures@[f].stack(p) by {
        let fid = a.fixtures.fixtures@[f].id;
        assert(b.fixtures.fixtures@[f].id == fid);
        lemma_replay_schedule(
            a.tracks,
            b.tracks,
            a.played(),
            a.fixtures.spec_ids(),
            fid,
            p,
            patch.profile_if_patched(fid),
        );
    }
    assert forall|f: int, p: Param, time: Time, profile: FixtureProfile|
        0 <= f < a.fixtures.fixtures@.len() implies #[trigger] a.fixtures.fixtures@[f].resolved_value(
            p,
            time,
            profile,
        ) == b.fixtures.fixtures@[f].resolved_value(p, time, profile) by {
        assert(a.fixtures.fixtures@[f].stack(p) == b.fixtures.fixtures@[f].stack(p));
    }
}

pub struct Environment {
    pub fixtures: FixtureSet,
    pub history: History,
    pub tracks: Tracks,
    pub last_time: Option<Time>,
}

impl Environment {
    /// The fixture set and every checkpoint are well formed and hold the same
    /// fixtures; the tracks are in time order.
    pub open spec fn wf(self) -> bool {
        &&& self.fixtures.wf()
        &&& self.tracks.wf()
        &&& forall|h: int|
            0 <= h < self.history.history@.len() ==> (#[trigger] self.history.history@[h]).wf()
                && self.history.history@[h].same_ids(self.fixtures)
        &&& self.checkpoints_exist()
    }

    /// Every marked action's checkpoint is recorded.
    pub open spec fn checkpoints_exist(self) -> bool {
        forall|i: int, k: int|
            0 <= i < self.tracks.tracks@.len() && 0 <= k < self.tracks.tracks@[i].actions@.len()
                && #[trigger] self.tracks.tracks@[i].actions@[k].history.is_some()
                ==> self.tracks.tracks@[i].actions@[k].history.unwrap() < self.history.history@.len()
    }

    /// The state of a show played straight through every millisecond below
    /// `n` with `patch`: every fixture's generators are the replay's; an
    /// action stands applied exactly when it is below `n` and its millisecond
    /// had something due; its checkpoint holds the replay up to its
    /// millisecond; and checkpoints are numbered in time order.
    pub open spec fn plays_through(self, n: nat, patch: Patch) -> bool {
        let tracks = self.tracks.tracks@;
        let ids = self.fixtures.spec_ids();
        let fixtures = self.fixtures.fixtures@;
        &&& self.history.history@.len() == groups_below(tracks, n)
        &&& forall|f: int, p: Param|
            0 <= f < fixtures.len() ==> #[trigger] fixtures[f].stack(p) == replay(
                tracks,
                n,
                ids,
                fixtures[f].id,
                p,
                patch.profile_if_patched(fixtures[f].id),
            )
        &&& forall|i: int, j: int|
            0 <= i < tracks.len() && 0 <= j < tracks[i].actions@.len() ==> (
            #[trigger] tracks[i].actions@[j].history.is_some() <==> (tracks[i].actions@[j].time.ms()
                < n && group_at(tracks, tracks[i].actions@[j].time.ms())))
        &&& forall|i: int, j: int|
            0 <= i < tracks.len() && 0 <= j < tracks[i].actions@.len()
                && #[trigger] tracks[i].actions@[j].history.is_some() ==> {
                let h = tracks[i].actions@[j].history.unwrap() as int;
                let m = tracks[i].actions@[j].time.ms();
                &&& h == groups_below(tracks, m as nat)
                &&& h < self.history.history@.len()
                &&& forall|f: int, p: Param|
                    0 <= f < fixtures.len() ==> #[trigger] self.history.history@[h].fixtures@[f].stack(
                        p,
                    ) == replay(
                        tracks,
                        m as nat,
                        ids,
                        fixtures[f].id,
                        p,
                        patch.profile_if_patched(fixtures[f].id),
                    )
            }
        &&& forall|i: int, j: int, i2: int, j2: int|
            0 <= i < tracks.len() && 0 <= j < tracks[i].actions@.len() && 0 <= i2 < tracks.len()
                && 0 <= j2 < tracks[i2].actions@.len() && #[trigger] tracks[i].actions@[j].history.is_some()
                && #[trigger] tracks[i2].actions@[j2].history.is_some() ==> {
                let m = tracks[i].actions@[j].time.ms();
                let m2 = tracks[i2].actions@[j2].time.ms();
                &&& m < m2 ==> tracks[i].actions@[j].history.unwrap()
                    < tracks[i2].actions@[j2].history.unwrap()
                &&& m == m2 ==> tracks[i].actions@[j].history.unwrap()
                    == tracks[i2].actions@[j2].history.unwrap()
            }
    }

/// A show played straight through `n` is played straight through `to`
    /// when nothing is due from `n` up to `to`.
    proof fn lemma_skip_to(self, n: nat, to: nat, patch: Patch)
        requires
            self.plays_through(n, patch),
            n <= to,
            forall|m: int| n <= m < to ==> !group_at(self.tracks.tracks@, m),
        ensures
            self.plays_through(to, patch),
    {
        lemma_groups_below_skip(self.tracks.tracks@, n, to);
        let tracks = self.tracks.tracks@;
        let ids = self.fixtures.spec_ids();
        assert forall|f: int, p: Param|
            0 <= f < self.fixtures.fixtures@.len() implies #[trigger] self.fixtures.fixtures@[f].stack(p)
            == replay(
            tracks,
            to,
            ids,
            self.fixtures.fixtures@[f].id,
            p,
            patch.profile_if_patched(self.fixtures.fixtures@[f].id),
        ) by {
            lemma_replay_skip(
                tracks,
                n,
                to,
                ids,
                self.fixtures.fixtures@[f].id,
                p,
                patch.profile_if_patched(self.fixtures.fixtures@[f].id),
            );
        }
        assert forall|i: int, j: int|
            0 <= i < tracks.len() && 0 <= j < tracks[i].actions@.len() implies (
            #[trigger] tracks[i].actions@[j].history.is_some() <==> (tracks[i].actions@[j].time.ms()
                < to && group_at(tracks, tracks[i].actions@[j].time.ms()))) by {}
    }

    /// One group step: with the show played straight through `n`, nothing due
    /// from `n` up to `m` and something due at `m`, recording a checkpoint,
    /// applying millisecond `m`'s group and marking it leaves the show played
    /// straight through `m + 1`.
    proof fn lemma_group_step(
        self,
        before: Environment,
        snapshot: FixtureSet,
        n: nat,
        m: nat,
        id: usize,
        patch: Patch,
    )
        requires
            before.wf(),
            before.plays_through(n, patch),
            n <= m,
            forall|m2: int| n <= m2 < m ==> !group_at(before.tracks.tracks@, m2),
            group_at(before.tracks.tracks@, m as int),
            snapshot.same_state(before.fixtures),
            id == before.history.history@.len(),
            self.history.history@ == before.history.history@.push(snapshot),
            self.fixtures.same_ids(before.fixtures),
            forall|f: int, p: Param|
                0 <= f < before.fixtures.fixtures@.len() ==> #[trigger] self.fixtures.fixtures@[f].stack(p)
                    == tracks_stack(
                    before.tracks.tracks@,
                    before.fixtures.fixtures@[f].stack(p),
                    m as int,
                    before.fixtures.spec_ids(),
                    before.fixtures.fixtures@[f].id,
                    p,
                    patch.profile_if_patched(before.fixtures.fixtures@[f].id),
                    before.tracks.tracks@.len(),
                ),
            self.tracks.same_schedule(before.tracks),
            forall|i: int, k: int|
                0 <= i < self.tracks.tracks@.len() && 0 <= k < self.tracks.tracks@[i].actions@.len()
                    ==> self.tracks.tracks@[i].actions@[k].history == if before.tracks.tracks@[i].actions@[k].time.ms()
                    == m {
                    Some(id)
                } else {
                    before.tracks.tracks@[i].actions@[k].history
                },
        ensures
            self.plays_through((m + 1) as nat, patch),
    {
        let tracks = self.tracks.tracks@;
        let old_tracks = before.tracks.tracks@;
        lemma_same_ids_same_set(self.fixtures, before.fixtures);
        let ids = self.fixtures.spec_ids();
        assert forall|m2: int| group_at(tracks, m2) == group_at(old_tracks, m2) by {
            lemma_group_at_schedule(self.tracks, before.tracks, m2);
        }
        assert forall|k: nat| #[trigger] groups_below(tracks, k) == groups_below(old_tracks, k) by {
            lemma_groups_below_schedule(self.tracks, before.tracks, k);
        }
        lemma_groups_below_skip(old_tracks, n, m);
        assert(groups_below(old_tracks, (m + 1) as nat) == groups_below(old_tracks, m) + 1);
        assert(self.history.history@.len() == groups_below(tracks, (m + 1) as nat));
        assert forall|k: nat, fid: FixtureID, p: Param, profile: Option<FixtureProfile>|
            #[trigger] replay(tracks, k, ids, fid, p, profile) == replay(old_tracks, k, ids, fid, p, profile) by {
            lemma_replay_schedule(self.tracks, before.tracks, k, ids, fid, p, profile);
        }
        assert forall|f: int, p: Param|
            0 <= f < self.fixtures.fixtures@.len() implies #[trigger] self.fixtures.fixtures@[f].stack(p)
            == replay(
            tracks,
            (m + 1) as nat,
            ids,
            self.fixtures.fixtures@[f].id,
            p,
            patch.profile_if_patched(self.fixtures.fixtures@[f].id),
        ) by {
            let fid = before.fixtures.fixtures@[f].id;
            let prof = patch.profile_if_patched(fid);
            lemma_replay_skip(old_tracks, n, m, ids, fid, p, prof);
            assert(before.fixtures.fixtures@[f].stack(p) == replay(old_tracks, n, ids, fid, p, prof));
        }
        assert forall|i: int, j: int|
            0 <= i < tracks.len() && 0 <= j < tracks[i].actions@.len() implies (
            #[trigger] tracks[i].actions@[j].history.is_some() <==> (tracks[i].actions@[j].time.ms()
                < m + 1 && group_at(tracks, tracks[i].actions@[j].time.ms()))) by {
            assert(tracks[i].same_schedule(old_tracks[i]));
            assert(tracks[i].actions@[j].time == old_tracks[i].actions@[j].time);
            assert(old_tracks[i].actions@[j].history.is_some() <==> (old_tracks[i].actions@[j].time.ms()
                < n && group_at(old_tracks, old_tracks[i].actions@[j].time.ms())));
        }
        assert forall|i: int, j: int|
            0 <= i < tracks.len() && 0 <= j < tracks[i].actions@.len()
                && #[trigger] tracks[i].actions@[j].history.is_some() implies {
                let h = tracks[i].actions@[j].history.unwrap() as int;
                let mj = tracks[i].actions@[j].time.ms();
                &&& h < self.history.history@.len()
                &&& forall|f: int, p: Param|
                    0 <= f < self.fixtures.fixtures@.len() ==> #[trigger] self.history.history@[h].fixtures@[f].stack(
                        p,
                    ) == replay(
                        tracks,
                        mj as nat,
                        ids,
                        self.fixtures.fixtures@[f].id,
                        p,
                        patch.profile_if_patched(self.fixtures.fixtures@[f].id),
                    )
            } by {
            assert(tracks[i].same_schedule(old_tracks[i]));
            assert(tracks[i].actions@[j].time == old_tracks[i].actions@[j].time);
            let h = tracks[i].actions@[j].history.unwrap() as int;
            if old_tracks[i].actions@[j].time.ms() == m {
                assert forall|f: int, p: Param|
                    0 <= f < self.fixtures.fixtures@.len() implies #[trigger] self.history.history@[h].fixtures@[f].stack(
                        p,
                    ) == replay(
                        tracks,
                        m,
                        ids,
                        self.fixtures.fixtures@[f].id,
                        p,
                        patch.profile_if_patched(self.fixtures.fixtures@[f].id),
                    ) by {
                    let fid = before.fixtures.fixtures@[f].id;
                    let prof = patch.profile_if_patched(fid);
                    lemma_replay_skip(old_tracks, n, m, ids, fid, p, prof);
                    assert(self.history.history@[h] == snapshot);
                    assert(snapshot.fixtures@[f].stack(p) == before.fixtures.fixtures@[f].stack(p));
                }
            } else {
                assert(old_tracks[i].actions@[j].history.is_some());
                assert forall|f: int, p: Param|
                    0 <= f < self.fixtures.fixtures@.len() implies #[trigger] self.history.history@[h].fixtures@[f].stack(
                        p,
                    ) == replay(
                        tracks,
                        tracks[i].actions@[j].time.ms() as nat,
                        ids,
                        self.fixtures.fixtures@[f].id,
                        p,
                        patch.profile_if_patched(self.fixtures.fixtures@[f].id),
                    ) by {
                    assert(before.fixtures.fixtures@[f].id == self.fixtures.fixtures@[f].id);
                    assert(self.history.history@[h] == before.history.history@[h]);
                }
            }
        }
        assert forall|i: int, j: int, i2: int, j2: int|
            0 <= i < tracks.len() && 0 <= j < tracks[i].actions@.len() && 0 <= i2 < tracks.len()
                && 0 <= j2 < tracks[i2].actions@.len() && #[trigger] tracks[i].actions@[j].history.is_some()
                && #[trigger] tracks[i2].actions@[j2].history.is_some() implies {
                let m1 = tracks[i].actions@[j].time.ms();
                let m2 = tracks[i2].actions@[j2].time.ms();
                &&& m1 < m2 ==> tracks[i].actions@[j].history.unwrap()
                    < tracks[i2].actions@[j2].history.unwrap()
                &&& m1 == m2 ==> tracks[i].actions@[j].history.unwrap()
                    == tracks[i2].actions@[j2].history.unwrap()
            } by {
            assert(tracks[i].same_schedule(old_tracks[i]));
            assert(tracks[i2].same_schedule(old_tracks[i2]));
            assert(tracks[i].actions@[j].time == old_tracks[i].actions@[j].time);
            assert(tracks[i2].actions@[j2].time == old_tracks[i2].actions@[j2].time);
            if old_tracks[i].actions@[j].time.ms() != m {
                assert(old_tracks[i].actions@[j].history.is_some());
            }
            if old_tracks[i2].actions@[j2].time.ms() != m {
                assert(old_tracks[i2].actions@[j2].history.is_some());
            }
        }
    }

    /// How far the playhead has been played: one past its millisecond, or
    /// zero before the first run.
    pub open spec fn played(self) -> nat {
        match self.last_time {
            Some(t) => (t.ms() + 1) as nat,
            None => 0,
        }
    }

    pub fn new() -> (r: Environment)
        ensures
            r.wf(),
            r.fixtures.fixtures@.len() == 0,
            r.history.history@.len() == 0,
            r.tracks.tracks@.len() == 0,
            r.last_time.is_none(),
    {
        Environment {
            fixtures: FixtureSet::new(),
            history: History::new(),
            tracks: Tracks::new(),
            last_time: None,
        }
    }

    pub fn add_track(&mut self, track: Track)
        requires
            old(self).wf(),
            track.wf(),
        ensures
            final(self).wf(),
            final(self).tracks.tracks@.len() == old(self).tracks.tracks@.len() + 1,
            final(self).tracks.tracks@.drop_last() == old(self).tracks.tracks@,
            final(self).tracks.tracks@.last().same_schedule(track),
            forall|k: int|
                0 <= k < track.actions@.len() ==> (#[trigger] final(self).tracks.tracks@.last().actions@[k]).history
                    .is_none(),
            final(self).fixtures == old(self).fixtures,
            final(self).history == old(self).history,
            final(self).last_time == old(self).last_time,
    {
        let mut track = track;
        track.clear_history();
        self.tracks.push(track);
        proof {
            assert(self.tracks.tracks@.drop_last() =~= old(self).tracks.tracks@);
            assert forall|i: int| 0 <= i < self.tracks.tracks@.len() implies (
            #[trigger] self.tracks.tracks@[i]).wf() by {
                if i < old(self).tracks.tracks@.len() {
                    assert(old(self).tracks.tracks@[i].wf());
                }
            }
        }
    }

    /// Empties the show: the same fixtures with no generators, no
    /// checkpoints, no tracks and no playhead.
    pub fn reset(&mut self)
        requires
            old(self).wf(),
        ensures
            final(self).wf(),
            final(self).fixtures.same_ids(old(self).fixtures),
            final(self).fixtures.pristine(),
            final(self).history.history@.len() == 0,
            final(self).tracks.tracks@.len() == 0,
            final(self).last_time.is_none(),
    {
        self.fixtures = self.fixtures.clean_clone();
        self.history.clear();
        self.tracks = Tracks::new();
        self.last_time = None;
    }

    /// Moves the playhead to `time`. A move backwards first restores the
    /// latest checkpoint at or before `time` (see `revert_to_time`); then every
    /// action due by `time` that has not run is applied, one group per
    /// distinct millisecond in time order: a checkpoint of the fixtures is
    /// recorded, the group's actions are applied (track by track, each track
    /// in order, their generators started at that time), and every action at
    /// that millisecond is marked with the checkpoint.
    pub fn run_to_time(&mut self, time: Time, patch: &Patch)
        requires
            old(self).wf(),
        ensures
            final(self).wf(),
            final(self).last_time == Some(time),
            final(self).tracks.same_schedule(old(self).tracks),
            final(self).fixtures.same_ids(old(self).fixtures),
            // Every action due by `time` stands applied (unless checkpoints ran out of ids).
            final(self).history.history@.len() < usize::MAX ==> forall|i: int, k: int|
                final(self).tracks.due(i, k, time) ==> final(self).tracks.applied(i, k),
            // Moving forward adds exactly one checkpoint per distinct due millisecond.
            (old(self).last_time.is_none() || old(self).last_time.unwrap().ms() <= time.ms())
                && old(self).history.history@.len() + old(self).tracks.unrun_times(time).len()
                < usize::MAX ==> final(self).history.history@.len() == old(
                self,
            ).history.history@.len() + old(self).tracks.unrun_times(time).len(),
            // Moving back to zero with nothing due there leaves the pristine state.
            (old(self).last_time.is_some() && time.ms() < old(self).last_time.unwrap().ms()
                && time.ms() == 0 && forall|i: int, k: int| !old(self).tracks.due(i, k, time))
                ==> final(self).fixtures.pristine() && final(self).history.history@.len() == 0
                && forall|i: int, k: int|
                0 <= i < final(self).tracks.tracks@.len() && 0 <= k
                    < final(self).tracks.tracks@[i].actions@.len() ==> !final(self).tracks.applied(i, k),
            // Moving forward keeps every checkpoint there was, in place.
            !(old(self).last_time.is_some() && time.ms() < old(self).last_time.unwrap().ms())
                ==> final(self).history.history@.len() >= old(self).history.history@.len()
                && final(self).history.history@.subrange(0, old(self).history.history@.len() as int)
                == old(self).history.history@,
            // A show played straight through where its playhead stood is, wherever the
            // playhead moves, played straight through its new place.
            old(self).plays_through(old(self).played(), *patch) && final(self).history.history@.len()
                < usize::MAX ==> final(self).plays_through(final(self).played(), *patch),
    {
        let ghost start = *self;
        let mut moved_back = false;
        let mut reached: Ghost<nat> = Ghost(start.played());
        match self.last_time {
            Some(last) => {
                if time.is_before(&last) {
                    reached = self.revert_to_time(time, Ghost(*patch));
                    moved_back = true;
                }
            },
            None => {},
        }
        let ghost after_revert = *self;
        self.last_time = Some(time);
        let ghost reverted = *self;
        let ghost good = start.plays_through(start.played(), *patch);
        proof {
            if good {
                assert(after_revert.plays_through(reached@, *patch));
                assert(reached@ <= time.ms() + 1);
            }
        }
        let times = self.tracks.unrun_times_at(time);
        proof {
            if !moved_back {
                let ms_seq = times@.map_values(|t: Time| t.ms());
                assert forall|m: int| ms_seq.contains(m) implies self.tracks.unrun_times(time).contains(m) by {
                    let a = choose|a: int| 0 <= a < ms_seq.len() && #[trigger] ms_seq[a] == m;
                    assert(self.tracks.unrun_times(time).contains(times@[a].ms()));
                }
                assert forall|m: int| self.tracks.unrun_times(time).contains(m) implies ms_seq.contains(m) by {
                    let (i, k) = choose|i: int, k: int|
                        self.tracks.unrun(i, k, time) && self.tracks.tracks@[i].actions@[k].time.ms() == m;
                    let a = choose|a: int|
                        0 <= a < times@.len() && times@[a].ms() == self.tracks.tracks@[i].actions@[k].time.ms();
                    assert(ms_seq[a] == m);
                }
                assert(ms_seq.to_set() =~= self.tracks.unrun_times(time));
                assert(ms_seq.no_duplicates()) by {
                    assert forall|a: int, b: int|
                        0 <= a < ms_seq.len() && 0 <= b < ms_seq.len() && a != b implies ms_seq[a]
                        != ms_seq[b] by {
                        if a < b {
                            assert(times@[a].ms() < times@[b].ms());
                        } else {
                            assert(times@[b].ms() < times@[a].ms());
                        }
                    }
                }
                ms_seq.unique_seq_to_set();
            }
            if start.last_time.is_some() && time.ms() < start.last_time.unwrap().ms() && time.ms()
                == 0 && forall|i: int, k: int| !start.tracks.due(i, k, time) {
                if times@.len() > 0 {
                    assert(self.tracks.unrun_times(time).contains(times@[0].ms()));
                    let (i, k) = choose|i: int, k: int|
                        self.tracks.unrun(i, k, time) && self.tracks.tracks@[i].actions@[k].time.ms()
                            == times@[0].ms();
                    assert(self.tracks.tracks@[i].same_schedule(start.tracks.tracks@[i]));
                    assert(self.tracks.tracks@[i].actions@[k].time == start.tracks.tracks@[i].actions@[k].time);
                    assert(start.tracks.due(i, k, time));
                }
            }
        }
        let ghost n0 = reached@;
        proof {
            assert forall|a: int| 0 <= a < times@.len() implies #[trigger] times@[a].ms() <= time.ms()
                && group_at(reverted.tracks.tracks@, times@[a].ms()) by {
                assert(reverted.tracks.unrun_times(time).contains(times@[a].ms()));
                let (i, k) = choose|i: int, k: int|
                    reverted.tracks.unrun(i, k, time) && reverted.tracks.tracks@[i].actions@[k].time.ms()
                        == times@[a].ms();
                assert(due_at(reverted.tracks.tracks@[i], k, times@[a].ms()));
            }
            if good {
                assert forall|a: int| 0 <= a < times@.len() implies #[trigger] times@[a].ms() >= n0 by {
                    assert(reverted.tracks.unrun_times(time).contains(times@[a].ms()));
                    let (i, k) = choose|i: int, k: int|
                        reverted.tracks.unrun(i, k, time) && reverted.tracks.tracks@[i].actions@[k].time.ms()
                            == times@[a].ms();
                    assert(due_at(reverted.tracks.tracks@[i], k, times@[a].ms()));
                    assert(!reverted.tracks.tracks@[i].actions@[k].history.is_some());
                }
                assert forall|m: int|
                    n0 <= m <= time.ms() && group_at(reverted.tracks.tracks@, m) implies exists|a: int|
                    0 <= a < times@.len() && #[trigger] times@[a].ms() == m by {
                    let (i, j) = choose|i: int, j: int|
                        0 <= i < reverted.tracks.tracks@.len() && 0 <= j
                            < reverted.tracks.tracks@[i].actions@.len() && due_at(
                            reverted.tracks.tracks@[i],
                            j,
                            m,
                        );
                    assert(!reverted.tracks.tracks@[i].actions@[j].history.is_some());
                    assert(reverted.tracks.unrun(i, j, time));
                }
            }
        }
        let ghost mut n: nat = n0;
        let mut g: usize = 0;
        while g < times.len() && self.history.len() < usize::MAX
            invariant
                g <= times@.len(),
                self.wf(),
                self.last_time == Some(time),
                self.tracks.same_schedule(reverted.tracks),
                self.fixtures.same_ids(reverted.fixtures),
                self.history.history@.len() == reverted.history.history@.len() + g,
                g == 0 ==> self.fixtures == reverted.fixtures && self.history == reverted.history
                    && self.tracks == reverted.tracks,
                self.history.history@.subrange(0, reverted.history.history@.len() as int)
                    == reverted.history.history@,
                forall|a: int, b: int| 0 <= a < b < times@.len() ==> times@[a].ms() < times@[b].ms(),
                forall|i: int, k: int|
                    reverted.tracks.unrun(i, k, time) ==> exists|a: int|
                        0 <= a < times@.len() && times@[a].ms()
                            == reverted.tracks.tracks@[i].actions@[k].time.ms(),
                forall|i: int, k: int|
                    0 <= i < self.tracks.tracks@.len() && 0 <= k
                        < self.tracks.tracks@[i].actions@.len() ==> (#[trigger] self.tracks.applied(i, k)
                        == (reverted.tracks.applied(i, k) || exists|a: int|
                        0 <= a < g && times@[a].ms()
                            == reverted.tracks.tracks@[i].actions@[k].time.ms())),
                forall|a: int| 0 <= a < times@.len() ==> #[trigger] times@[a].ms() <= time.ms()
                    && group_at(reverted.tracks.tracks@, times@[a].ms()),
                good ==> self.plays_through(n, *patch),
                good ==> n <= time.ms() + 1,
                good ==> forall|a: int| g <= a < times@.len() ==> #[trigger] times@[a].ms() >= n,
                good ==> forall|m: int|
                    n <= m <= time.ms() && group_at(reverted.tracks.tracks@, m) ==> exists|a: int|
                        g <= a < times@.len() && #[trigger] times@[a].ms() == m,
            decreases times@.len() - g,
        {
            let ghost before_env = *self;
            let at = Time::new(times[g].total_milliseconds() * NANOS_PER_MS);
            let snapshot = self.fixtures.duplicate();
            let ghost snap = snapshot;
            let ghost history_before = self.history.history@;
            let id = self.history.record(snapshot);
            proof {
                assert(self.history.history@.subrange(0, reverted.history.history@.len() as int)
                    =~= history_before.subrange(0, reverted.history.history@.len() as int));
            }
            proof {
                assert forall|h: int| 0 <= h < self.history.history@.len() implies (
                #[trigger] self.history.history@[h]).wf()
                    && self.history.history@[h].same_ids(self.fixtures) by {
                    if h < self.history.history@.len() - 1 {
                        assert(self.history.history@[h] == self.history.history@.drop_last()[h]);
                    }
                }
            }
            let ghost before_mark = self.tracks;
            proof {
                assert forall|i: int, k: int|
                    0 <= i < before_mark.tracks@.len() && 0 <= k
                        < before_mark.tracks@[i].actions@.len() implies #[trigger] before_mark.applied(i, k)
                    == (reverted.tracks.applied(i, k) || exists|a: int|
                    0 <= a < g && times@[a].ms()
                        == reverted.tracks.tracks@[i].actions@[k].time.ms()) by {}
            }
            let ghost m: nat = times@[g as int].ms() as nat;
            proof {
                if good {
                    lemma_group_at_schedule(before_env.tracks, reverted.tracks, m as int);
                    assert forall|i: int, j: int|
                        0 <= i < before_env.tracks.tracks@.len() && 0 <= j
                            < before_env.tracks.tracks@[i].actions@.len()
                            && before_env.tracks.tracks@[i].actions@[j].time.ms() == m implies
                        #[trigger] before_env.tracks.tracks@[i].actions@[j].history.is_none() by {
                        assert(before_env.tracks.tracks@[i].actions@[j].history.is_some() <==> (
                        before_env.tracks.tracks@[i].actions@[j].time.ms() < n && group_at(
                            before_env.tracks.tracks@,
                            before_env.tracks.tracks@[i].actions@[j].time.ms(),
                        )));
                    }
                    assert(unrun_at(self.tracks.tracks@, m as int));
                }
            }
            self.apply_group(at, time, patch);
            self.tracks.mark(at, id);
            proof {
                if good {
                    assert forall|m2: int| n <= m2 < m implies !group_at(before_env.tracks.tracks@, m2) by {
                        lemma_group_at_schedule(before_env.tracks, reverted.tracks, m2);
                        if group_at(reverted.tracks.tracks@, m2) {
                            let a = choose|a: int| g <= a < times@.len() && #[trigger] times@[a].ms() == m2;
                            if a > g {
                                assert(times@[g as int].ms() < times@[a].ms());
                            }
                        }
                    }
                    assert(snap.same_state(before_env.fixtures));
                    self.lemma_group_step(before_env, snap, n, m, id, *patch);
                    assert forall|m2: int|
                        m + 1 <= m2 <= time.ms() && group_at(reverted.tracks.tracks@, m2) implies exists|a: int|
                        g + 1 <= a < times@.len() && #[trigger] times@[a].ms() == m2 by {
                        let a = choose|a: int| g <= a < times@.len() && #[trigger] times@[a].ms() == m2;
                        assert(a != g);
                    }
                    assert forall|a: int| g + 1 <= a < times@.len() implies #[trigger] times@[a].ms() >= m + 1 by {
                        assert(times@[g as int].ms() < times@[a].ms());
                    }
                }
                n = m + 1;
            }
            proof {
                assert forall|i: int, k: int|
                    0 <= i < self.tracks.tracks@.len() && 0 <= k
                        < self.tracks.tracks@[i].actions@.len() implies (#[trigger] self.tracks.applied(i, k)
                    == (reverted.tracks.applied(i, k) || exists|a: int|
                    0 <= a < g + 1 && times@[a].ms()
                        == reverted.tracks.tracks@[i].actions@[k].time.ms())) by {
                    assert(before_mark.tracks@[i].same_schedule(reverted.tracks.tracks@[i]));
                    assert(before_mark.applied(i, k) == (reverted.tracks.applied(i, k) || exists|a: int|
                        0 <= a < g && times@[a].ms()
                            == reverted.tracks.tracks@[i].actions@[k].time.ms()));
                    assert(before_mark.tracks@[i].actions@[k].time == reverted.tracks.tracks@[i].actions@[k].time);
                    if times@[g as int].ms() == reverted.tracks.tracks@[i].actions@[k].time.ms() {
                        assert(self.tracks.applied(i, k));
                    }
                    if exists|a: int|
                        0 <= a < g + 1 && times@[a].ms()
                            == reverted.tracks.tracks@[i].actions@[k].time.ms() {
                        let a = choose|a: int|
                            0 <= a < g + 1 && times@[a].ms()
                                == reverted.tracks.tracks@[i].actions@[k].time.ms();
                        if a < g {
                            assert(exists|a2: int|
                                0 <= a2 < g && times@[a2].ms()
                                    == reverted.tracks.tracks@[i].actions@[k].time.ms());
                        }
                    }
                }
            }
            g = g + 1;
        }
        proof {
            if good && self.history.history@.len() < usize::MAX {
                assert forall|m2: int| n <= m2 < time.ms() + 1 implies !group_at(self.tracks.tracks@, m2) by {
                    lemma_group_at_schedule(self.tracks, reverted.tracks, m2);
                    if group_at(reverted.tracks.tracks@, m2) {
                        let a = choose|a: int| g <= a < times@.len() && #[trigger] times@[a].ms() == m2;
                    }
                }
                self.lemma_skip_to(n, (time.ms() + 1) as nat, *patch);
            }
            if self.history.history@.len() < usize::MAX {
                assert forall|i: int, k: int| self.tracks.due(i, k, time) implies self.tracks.applied(
                    i,
                    k,
                ) by {
                    if !reverted.tracks.applied(i, k) {
                        assert(reverted.tracks.unrun(i, k, time));
                    }
                }
            }
        }
    }

    /// Applies, at `at`, every action that is due by `time`, has not run and
    /// is scheduled at the millisecond of `at`: track by track, each track in order.
    fn apply_group(&mut self, at: Time, time: Time, patch: &Patch)
        requires
            old(self).wf(),
            at == at_ms(at.ms()),
        ensures
            final(self).wf(),
            final(self).tracks == old(self).tracks,
            final(self).history == old(self).history,
            final(self).last_time == old(self).last_time,
            final(self).fixtures.same_ids(old(self).fixtures),
            // With nothing at that millisecond run yet, this is that millisecond's group.
            at.ms() <= time.ms() && unrun_at(old(self).tracks.tracks@, at.ms()) ==> forall|
                f: int,
                p: Param,
            |
                0 <= f < old(self).fixtures.fixtures@.len() ==> #[trigger] final(self).fixtures.fixtures@[f].stack(p)
                    == tracks_stack(
                    old(self).tracks.tracks@,
                    old(self).fixtures.fixtures@[f].stack(p),
                    at.ms(),
                    old(self).fixtures.spec_ids(),
                    old(self).fixtures.fixtures@[f].id,
                    p,
                    patch.profile_if_patched(old(self).fixtures.fixtures@[f].id),
                    old(self).tracks.tracks@.len(),
                ),
    {
        let ghost start = self.fixtures;
        let ghost tracks = self.tracks.tracks@;
        let mut i: usize = 0;
        while i < self.tracks.tracks.len()
            invariant
                i <= self.tracks.tracks@.len(),
                self.wf(),
                self.tracks == old(self).tracks,
                self.history == old(self).history,
                self.last_time == old(self).last_time,
                self.fixtures.same_ids(start),
                start == old(self).fixtures,
                tracks == self.tracks.tracks@,
                at == at_ms(at.ms()),
                at.ms() <= time.ms() && unrun_at(tracks, at.ms()) ==> forall|f: int, p: Param|
                    0 <= f < start.fixtures@.len() ==> #[trigger] self.fixtures.fixtures@[f].stack(p)
                        == tracks_stack(
                        tracks,
                        start.fixtures@[f].stack(p),
                        at.ms(),
                        start.spec_ids(),
                        start.fixtures@[f].id,
                        p,
                        patch.profile_if_patched(start.fixtures@[f].id),
                        i as nat,
                    ),
            decreases self.tracks.tracks@.len() - i,
        {
            let ghost before_track = self.fixtures;
            let mut k: usize = 0;
            while k < self.tracks.tracks[i].actions.len()
                invariant
                    i < self.tracks.tracks@.len(),
                    k <= self.tracks.tracks@[i as int].actions@.len(),
                    self.wf(),
                    self.tracks == old(self).tracks,
                    self.history == old(self).history,
                    self.last_time == old(self).last_time,
                    self.fixtures.same_ids(start),
                    before_track.same_ids(start),
                    start == old(self).fixtures,
                    tracks == self.tracks.tracks@,
                    at == at_ms(at.ms()),
                    at.ms() <= time.ms() && unrun_at(tracks, at.ms()) ==> forall|f: int, p: Param|
                        0 <= f < start.fixtures@.len() ==> #[trigger] self.fixtures.fixtures@[f].stack(p)
                            == track_stack(
                            tracks[i as int],
                            before_track.fixtures@[f].stack(p),
                            at.ms(),
                            start.spec_ids(),
                            start.fixtures@[f].id,
                            p,
                            patch.profile_if_patched(start.fixtures@[f].id),
                            k as nat,
                        ),
                decreases self.tracks.tracks@[i as int].actions@.len() - k,
            {
                let track = &self.tracks.tracks[i];
                let action = &track.actions[k];
                let ghost before = self.fixtures;
                if action.history.is_none() && action.time.same_as(&at)
                    && action.time.is_at_or_before(&time) && track.offset.is_at_or_before(
                    &action.time,
                ) {
                    self.fixtures.apply_action(&self.tracks.tracks[i].actions[k].action, at, patch);
                    proof {
                        assert forall|h: int| 0 <= h < self.history.history@.len() implies (
                        #[trigger] self.history.history@[h]).wf()
                            && self.history.history@[h].same_ids(self.fixtures) by {
                            assert(self.history.history@[h].same_ids(before));
                        }
                        lemma_same_ids_same_set(before, start);
                    }
                }
                proof {
                    if at.ms() <= time.ms() && unrun_at(tracks, at.ms()) {
                    assert(due_at(tracks[i as int], k as int, at.ms()) == (
                    tracks[i as int].actions@[k as int].time.ms() == at.ms()
                        && tracks[i as int].offset.ms() <= tracks[i as int].actions@[k as int].time.ms()));
                    assert forall|f: int, p: Param|
                        0 <= f < start.fixtures@.len() implies #[trigger] self.fixtures.fixtures@[f].stack(p)
                        == track_stack(
                        tracks[i as int],
                        before_track.fixtures@[f].stack(p),
                        at.ms(),
                        start.spec_ids(),
                        start.fixtures@[f].id,
                        p,
                        patch.profile_if_patched(start.fixtures@[f].id),
                        (k + 1) as nat,
                    ) by {
                        assert(before.fixtures@[f].id == start.fixtures@[f].id);
                    }
                    }
                }
                k = k + 1;
            }
            i = i + 1;
        }
    }

    /// Restores the state for a playhead moved back to `time`. At zero, or
    /// when no action at or before `time` stands applied, every fixture loses
    /// its generators, the checkpoints go and every action is marked not run.
    /// Otherwise the applied action with the latest time at or before `time`
    /// is found (the first track's on a tie, the last in that track's order);
    /// its checkpoint `h` is restored, the history keeps the checkpoints before
    /// `h`, and every action at or after its millisecond, or run from a
    /// checkpoint that is gone, is marked not run; other marks stay. A show
    /// played straight through some point is afterwards played straight
    /// through a point no later than `time`.
    fn revert_to_time(&mut self, time: Time, Ghost(patch): Ghost<Patch>) -> (reached: Ghost<nat>)
        requires
            old(self).wf(),
        ensures
            final(self).wf(),
            final(self).tracks.same_schedule(old(self).tracks),
            final(self).fixtures.same_ids(old(self).fixtures),
            final(self).last_time == old(self).last_time,
            forall|i: int, k: int|
                0 <= i < final(self).tracks.tracks@.len() && 0 <= k
                    < final(self).tracks.tracks@[i].actions@.len() && final(self).tracks.applied(i, k)
                    ==> old(self).tracks.applied(i, k),
            time.ms() == 0 || (forall|i: int, k: int| !checkpointed_by(old(self).tracks.tracks@, i, k, time))
                ==> final(self).fixtures.pristine() && final(self).history.history@.len() == 0
                && forall|i: int, k: int|
                0 <= i < final(self).tracks.tracks@.len() && 0 <= k
                    < final(self).tracks.tracks@[i].actions@.len() ==> !final(self).tracks.applied(i, k),
            time.ms() != 0 && (exists|i: int, k: int| checkpointed_by(old(self).tracks.tracks@, i, k, time))
                ==> exists|i: int, k: int|
                #[trigger] restore_point(old(self).tracks.tracks@, i, k, time) && {
                    let h = old(self).tracks.tracks@[i].actions@[k].history.unwrap();
                    let mx = old(self).tracks.tracks@[i].actions@[k].time.ms();
                    &&& final(self).fixtures == old(self).history.history@[h as int]
                    &&& final(self).history.history@ == old(self).history.history@.subrange(0, h as int)
                    &&& forall|i2: int, k2: int|
                        0 <= i2 < final(self).tracks.tracks@.len() && 0 <= k2
                            < final(self).tracks.tracks@[i2].actions@.len()
                            ==> #[trigger] final(self).tracks.tracks@[i2].actions@[k2].history
                            == if old(self).tracks.tracks@[i2].actions@[k2].time.ms() >= mx || (old(
                            self,
                        ).tracks.tracks@[i2].actions@[k2].history.is_some()
                            && old(self).tracks.tracks@[i2].actions@[k2].history.unwrap() >= h) {
                            None
                        } else {
                            old(self).tracks.tracks@[i2].actions@[k2].history
                        }
                },
            forall|n: nat| #[trigger] old(self).plays_through(n, patch) ==> reached@ <= time.ms() + 1
                && final(self).plays_through(reached@, patch),
    {
        if time.is_zero() {
            self.revert_to_zero(Ghost(patch));
            return Ghost(0);
        }
        let mut best: Option<(Time, usize)> = None;
        let ghost mut bi: int = 0;
        let ghost mut bk: int = 0;
        let ghost tracks = self.tracks.tracks@;
        let mut i: usize = 0;
        while i < self.tracks.tracks.len()
            invariant
                i <= self.tracks.tracks@.len(),
                self.wf(),
                self.tracks == old(self).tracks,
                tracks == self.tracks.tracks@,
                best.is_some() ==> {
                    &&& 0 <= bi < i
                    &&& checkpointed_by(tracks, bi, bk, time)
                    &&& tracks[bi].actions@[bk].time == best.unwrap().0
                    &&& tracks[bi].actions@[bk].history == Some(best.unwrap().1)
                    &&& forall|i2: int, k2: int|
                        i2 < i && #[trigger] checkpointed_by(tracks, i2, k2, time)
                            ==> tracks[i2].actions@[k2].time.ms() <= best.unwrap().0.ms()
                    &&& forall|i2: int, k2: int|
                        i2 < bi && #[trigger] checkpointed_by(tracks, i2, k2, time)
                            ==> tracks[i2].actions@[k2].time.ms() < best.unwrap().0.ms()
                    &&& forall|k2: int| bk < k2 ==> !#[trigger] checkpointed_by(tracks, bi, k2, time)
                },
                best.is_none() ==> forall|i2: int, k2: int|
                    i2 < i ==> !#[trigger] checkpointed_by(tracks, i2, k2, time),
            decreases self.tracks.tracks@.len() - i,
        {
            assert(self.tracks.tracks@[i as int].wf());
            match self.tracks.tracks[i].get_closest_action_to_time_with_history(time) {
                Some(action) => {
                    let ghost k = choose|k: int|
                        0 <= k < tracks[i as int].actions@.len() && *action
                            == tracks[i as int].actions@[k] && tracks[i as int].actions@[k].history.is_some()
                            && tracks[i as int].actions@[k].time.ms() <= time.ms() && forall|j: int|
                            k < j < tracks[i as int].actions@.len() ==> !(
                            tracks[i as int].actions@[j].history.is_some()
                                && tracks[i as int].actions@[j].time.ms() <= time.ms());
                    let candidate = (action.time, action.history());
                    proof {
                        assert forall|k2: int| #[trigger] checkpointed_by(tracks, i as int, k2, time)
                            implies tracks[i as int].actions@[k2].time.ms() <= candidate.0.ms() by {
                            if k2 > k {
                            } else {
                                assert(tracks[i as int].wf());
                            }
                        }
                        assert forall|k2: int| k < k2 implies !#[trigger] checkpointed_by(
                            tracks,
                            i as int,
                            k2,
                            time,
                        ) by {}
                    }
                    match best {
                        Some((best_time, _)) => {
                            if best_time.is_before(&candidate.0) {
                                best = Some(candidate);
                                proof {
                                    bi = i as int;
                                    bk = k;
                                }
                            }
                        },
                        None => {
                            best = Some(candidate);
                            proof {
                                bi = i as int;
                                bk = k;
                            }
                        },
                    }
                },
                None => {
                    proof {
                        assert forall|k2: int| !#[trigger] checkpointed_by(tracks, i as int, k2, time) by {}
                    }
                },
            }
            i = i + 1;
        }
        match best {
            Some((reset_time, id)) => {
                let ghost before = *self;
                proof {
                    assert(tracks[bi].actions@[bk].history.is_some());
                    assert(restore_point(tracks, bi, bk, time));
                }
                let snapshot = self.history.revert(id).unwrap();
                self.fixtures = snapshot;
                self.tracks.clear_after(reset_time, id);
                proof {
                    assert forall|h: int| 0 <= h < self.history.history@.len() implies (
                    #[trigger] self.history.history@[h]).wf()
                        && self.history.history@[h].same_ids(self.fixtures) by {
                        assert(old(self).history.history@[h] == self.history.history@[h]);
                    }
                    assert(self.fixtures.same_ids(old(self).fixtures)) by {
                        assert(old(self).history.history@[id as int].same_ids(old(self).fixtures));
                    }
                    assert forall|n: nat| #[trigger] old(self).plays_through(n, patch) implies self.plays_through(
                        reset_time.ms() as nat,
                        patch,
                    ) by {
                        self.lemma_reverted(before, n, patch, bi, bk);
                    }
                }
                Ghost(reset_time.ms() as nat)
            },
            None => {
                self.revert_to_zero(Ghost(patch));
                Ghost(0)
            },
        }
    }

    /// Restoring the checkpoint of applied action `(bi, bk)`, the latest at or
    /// before its time, leaves the show played straight through its millisecond.
    proof fn lemma_reverted(self, before: Environment, n: nat, patch: Patch, bi: int, bk: int)
        requires
            before.wf(),
            before.plays_through(n, patch),
            0 <= bi < before.tracks.tracks@.len(),
            0 <= bk < before.tracks.tracks@[bi].actions@.len(),
            before.tracks.tracks@[bi].actions@[bk].history.is_some(),
            self.fixtures == before.history.history@[before.tracks.tracks@[bi].actions@[bk].history.unwrap() as int],
            self.history.history@ == before.history.history@.subrange(
                0,
                before.tracks.tracks@[bi].actions@[bk].history.unwrap() as int,
            ),
            self.tracks.same_schedule(before.tracks),
            self.fixtures.same_ids(before.fixtures),
            forall|i: int, k: int|
                0 <= i < self.tracks.tracks@.len() && 0 <= k < self.tracks.tracks@[i].actions@.len()
                    ==> self.tracks.tracks@[i].actions@[k].history == if before.tracks.tracks@[i].actions@[k].time.ms()
                    >= before.tracks.tracks@[bi].actions@[bk].time.ms() || (
                    before.tracks.tracks@[i].actions@[k].history.is_some()
                        && before.tracks.tracks@[i].actions@[k].history.unwrap()
                        >= before.tracks.tracks@[bi].actions@[bk].history.unwrap()) {
                    None
                } else {
                    before.tracks.tracks@[i].actions@[k].history
                },
        ensures
            self.plays_through(before.tracks.tracks@[bi].actions@[bk].time.ms() as nat, patch),
    {
        let tracks = self.tracks.tracks@;
        let old_tracks = before.tracks.tracks@;
        let mx = old_tracks[bi].actions@[bk].time.ms();
        let hx = old_tracks[bi].actions@[bk].history.unwrap() as int;
        lemma_same_ids_same_set(self.fixtures, before.fixtures);
        let ids = self.fixtures.spec_ids();
        assert forall|m: int| group_at(tracks, m) == group_at(old_tracks, m) by {
            if group_at(tracks, m) {
                let (i, j) = choose|i: int, j: int|
                    0 <= i < tracks.len() && 0 <= j < tracks[i].actions@.len() && due_at(tracks[i], j, m);
                assert(tracks[i].same_schedule(old_tracks[i]));
                assert(tracks[i].actions@[j].time == old_tracks[i].actions@[j].time);
                assert(due_at(old_tracks[i], j, m));
            }
            if group_at(old_tracks, m) {
                let (i, j) = choose|i: int, j: int|
                    0 <= i < old_tracks.len() && 0 <= j < old_tracks[i].actions@.len() && due_at(old_tracks[i], j, m);
                assert(tracks[i].same_schedule(old_tracks[i]));
                assert(tracks[i].actions@[j].time == old_tracks[i].actions@[j].time);
                assert(due_at(tracks[i], j, m));
            }
        }
        assert forall|k: nat| #[trigger] groups_below(tracks, k) == groups_below(old_tracks, k) by {
            lemma_groups_below_schedule(self.tracks, before.tracks, k);
        }
        assert(old_tracks[bi].actions@[bk].history.is_some());
        assert(hx == groups_below(old_tracks, mx as nat));
        assert(self.history.history@.len() == groups_below(tracks, mx as nat));
        assert forall|m: nat, id: FixtureID, p: Param, profile: Option<FixtureProfile>|
            #[trigger] replay(tracks, m, ids, id, p, profile) == replay(old_tracks, m, ids, id, p, profile) by {
            lemma_replay_schedule(self.tracks, before.tracks, m, ids, id, p, profile);
        }
        // Fixtures: the checkpoint holds the replay up to the restored millisecond.
        assert forall|f: int, p: Param|
            0 <= f < self.fixtures.fixtures@.len() implies #[trigger] self.fixtures.fixtures@[f].stack(p)
            == replay(
            tracks,
            mx as nat,
            ids,
            self.fixtures.fixtures@[f].id,
            p,
            patch.profile_if_patched(self.fixtures.fixtures@[f].id),
        ) by {
            assert(before.fixtures.fixtures@[f].id == self.fixtures.fixtures@[f].id);
        }
        // Marks.
        assert forall|i: int, j: int|
            0 <= i < tracks.len() && 0 <= j < tracks[i].actions@.len() implies (
            #[trigger] tracks[i].actions@[j].history.is_some() <==> (tracks[i].actions@[j].time.ms()
                < mx && group_at(tracks, tracks[i].actions@[j].time.ms()))) by {
            assert(tracks[i].same_schedule(old_tracks[i]));
            assert(tracks[i].actions@[j].time == old_tracks[i].actions@[j].time);
            assert(self.tracks.applied(i, j) == tracks[i].actions@[j].history.is_some());
            assert(before.tracks.applied(i, j) == old_tracks[i].actions@[j].history.is_some());
            assert(old_tracks[i].actions@[j].history.is_some() <==> (old_tracks[i].actions@[j].time.ms()
                < n && group_at(old_tracks, old_tracks[i].actions@[j].time.ms())));
            assert(old_tracks[bi].actions@[bk].history.is_some());
        }
        // Checkpoints of what stays applied.
        assert forall|i: int, j: int|
            0 <= i < tracks.len() && 0 <= j < tracks[i].actions@.len()
                && #[trigger] tracks[i].actions@[j].history.is_some() implies {
                let h = tracks[i].actions@[j].history.unwrap() as int;
                let m = tracks[i].actions@[j].time.ms();
                &&& h < self.history.history@.len()
                &&& forall|f: int, p: Param|
                    0 <= f < self.fixtures.fixtures@.len() ==> #[trigger] self.history.history@[h].fixtures@[f].stack(
                        p,
                    ) == replay(
                        tracks,
                        m as nat,
                        ids,
                        self.fixtures.fixtures@[f].id,
                        p,
                        patch.profile_if_patched(self.fixtures.fixtures@[f].id),
                    )
            } by {
            assert(self.tracks.applied(i, j));
            assert(before.tracks.applied(i, j));
            assert(old_tracks[i].actions@[j].history.is_some());
            assert(old_tracks[bi].actions@[bk].history.is_some());
            assert(tracks[i].same_schedule(old_tracks[i]));
            assert(tracks[i].actions@[j].time == old_tracks[i].actions@[j].time);
            assert(tracks[i].actions@[j].history == old_tracks[i].actions@[j].history);
            let h = old_tracks[i].actions@[j].history.unwrap() as int;
            assert(old_tracks[i].actions@[j].time.ms() < mx);
            assert(h < hx);
            assert forall|f: int, p: Param|
                0 <= f < self.fixtures.fixtures@.len() implies #[trigger] self.history.history@[h].fixtures@[f].stack(
                    p,
                ) == replay(
                    tracks,
                    tracks[i].actions@[j].time.ms() as nat,
                    ids,
                    self.fixtures.fixtures@[f].id,
                    p,
                    patch.profile_if_patched(self.fixtures.fixtures@[f].id),
                ) by {
                assert(before.fixtures.fixtures@[f].id == self.fixtures.fixtures@[f].id);
                assert(self.history.history@[h] == before.history.history@[h]);
            }
        }
    }

    /// The fixtures lose their generators, the checkpoints go, and every
    /// action is marked not run.
    fn revert_to_zero(&mut self, Ghost(patch): Ghost<Patch>)
        requires
            old(self).wf(),
        ensures
            final(self).plays_through(0, patch),
            final(self).wf(),
            final(self).tracks.same_schedule(old(self).tracks),
            final(self).fixtures.same_ids(old(self).fixtures),
            final(self).fixtures.pristine(),
            final(self).history.history@.len() == 0,
            final(self).last_time == old(self).last_time,
            forall|i: int, k: int|
                0 <= i < final(self).tracks.tracks@.len() && 0 <= k
                    < final(self).tracks.tracks@[i].actions@.len() ==> !final(self).tracks.applied(i, k),
    {
        self.fixtures = self.fixtures.clean_clone();
        self.history.clear();
        self.tracks.clear_all();
        proof {
            let tracks = self.tracks.tracks@;
            assert forall|f: int, p: Param|
                0 <= f < self.fixtures.fixtures@.len() implies #[trigger] self.fixtures.fixtures@[f].stack(p)
                == replay(
                tracks,
                0,
                self.fixtures.spec_ids(),
                self.fixtures.fixtures@[f].id,
                p,
                patch.profile_if_patched(self.fixtures.fixtures@[f].id),
            ) by {
                assert(self.fixtures.fixtures@[f].stack(p) =~= Seq::<Generator>::empty());
            }
            assert forall|i: int, j: int|
                0 <= i < tracks.len() && 0 <= j < tracks[i].actions@.len() implies !(
                #[trigger] tracks[i].actions@[j].history.is_some()) by {
                assert(!self.tracks.applied(i, j));
            }
        }
    }
}

} // verus!
