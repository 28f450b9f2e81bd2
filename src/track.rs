//! Tracks: actions in time order, each marked with the checkpoint taken just
//! before it ran once it has run.
use vstd::prelude::*;
use crate::action::Action;
use crate::history::HistoryID;
use crate::time::Time;

verus! {

/// An action scheduled at `time`; `history` is the checkpoint taken just
/// before it ran, while it stands applied.
#[derive(Clone, Debug)]
pub struct TrackAction {
    pub time: Time,
    pub action: Action,
    pub history: Option<HistoryID>,
}

impl TrackAction {
    pub fn new(time: Time, action: Action) -> (r: TrackAction)
        ensures
            r.time == time,
            r.action == action,
            r.history == None::<HistoryID>,
    {
        TrackAction { time, action, history: None }
    }

    pub fn action(&self) -> (r: &Action)
        ensures
            *r == self.action,
    {
        &self.action
    }

    pub fn has_history(&self) -> (r: bool)
        ensures
            r == self.history.is_some(),
    {
        self.history.is_some()
    }

    pub fn clear_history(&mut self)
        ensures
            final(self).history == None::<HistoryID>,
            final(self).time == old(self).time,
            final(self).action == old(self).action,
    {
        self.history = None;
    }

    /// The checkpoint taken before this action ran.
    pub fn history(&self) -> (r: HistoryID)
        requires
            self.history.is_some(),
        ensures
            r == self.history.unwrap(),
    {
        self.history.unwrap()
    }

    pub fn time(&self) -> (r: Time)
        ensures
            r == self.time,
    {
        self.time
    }

    pub fn set_history(&mut self, history_id: HistoryID)
        ensures
            final(self).history == Some(history_id),
            final(self).time == old(self).time,
            final(self).action == old(self).action,
    {
        self.history = Some(history_id);
    }
}

/// The indices of one track's actions that are due and not yet run, grouped
/// by the millisecond they are scheduled at.
#[derive(Clone, Debug)]
pub struct TimeGroup {
    pub time: Time,
    pub actions: Vec<usize>,
}

#[derive(Clone, Debug)]
pub struct TimeGroups {
    pub groups: Vec<TimeGroup>,
}

impl TimeGroups {
    /// The group scheduled at `time` (to the millisecond), if any.
    pub fn get(&self, time: &Time) -> (r: Option<&Vec<usize>>)
        ensures
            r.is_some() <==> exists|k: int|
                0 <= k < self.groups@.len() && self.groups@[k].time.ms() == time.ms(),
            r.is_some() ==> exists|k: int|
                0 <= k < self.groups@.len() && self.groups@[k].time.ms() == time.ms() && *r.unwrap()
                    == self.groups@[k].actions,
    {
        let mut i: usize = 0;
        while i < self.groups.len()
            invariant
                i <= self.groups@.len(),
                forall|k: int| 0 <= k < i ==> self.groups@[k].time.ms() != time.ms(),
            decreases self.groups@.len() - i,
        {
            if self.groups[i].time.same_as(time) {
                return Some(&self.groups[i].actions);
            }
            i = i + 1;
        }
        None
    }

    pub fn len(&self) -> (r: usize)
        ensures
            r == self.groups@.len(),
    {
        self.groups.len()
    }
}

/// A sequence of actions kept in time order.
#[derive(Clone, Debug)]
pub struct Track {
    pub actions: Vec<TrackAction>,
    pub offset: Time,
}

impl Track {
    /// The actions are in time order (to the millisecond).
    pub open spec fn wf(self) -> bool {
        forall|j: int, k: int|
            0 <= j <= k < self.actions@.len() ==> self.actions@[j].time.ms()
                <= self.actions@[k].time.ms()
    }

    /// Whether the action at `k` is due at `time`: scheduled no later than
    /// `time` and no earlier than the track's offset.
    pub open spec fn due(self, k: int, time: Time) -> bool {
        &&& self.actions@[k].time.ms() <= time.ms()
        &&& self.offset.ms() <= self.actions@[k].time.ms()
    }

    /// Whether the action at `k` is due at `time` and has not run.
    pub open spec fn unrun(self, k: int, time: Time) -> bool {
        self.due(k, time) && self.actions@[k].history.is_none()
    }

    /// The same actions at the same times, whatever their marks.
    pub open spec fn same_schedule(self, other: Track) -> bool {
        &&& self.actions@.len() == other.actions@.len()
        &&& self.offset == other.offset
        &&& forall|k: int|
            0 <= k < self.actions@.len() ==> (#[trigger] self.actions@[k]).time
                == other.actions@[k].time && self.actions@[k].action == other.actions@[k].action
    }

    pub fn new() -> (r: Track)
        ensures
            r.wf(),
            r.actions@.len() == 0,
            r.offset.nanoseconds == 0,
    {
        Track { actions: Vec::new(), offset: Time { nanoseconds: 0 } }
    }

    pub fn actions(&self) -> (r: &Vec<TrackAction>)
        ensures
            *r == self.actions,
    {
        &self.actions
    }

    pub fn set_offset(&mut self, time: Time)
        ensures
            final(self).offset == time,
            final(self).actions == old(self).actions,
    {
        self.offset = time;
    }

    /// Schedules `action` at `time`, after every action scheduled at or
    /// before that millisecond.
    pub fn add_action(&mut self, time: Time, action: Action)
        requires
            old(self).wf(),
        ensures
            final(self).wf(),
            final(self).offset == old(self).offset,
            exists|pos: int|
                0 <= pos <= old(self).actions@.len() && final(self).actions@ == old(
                    self,
                ).actions@.insert(pos, TrackAction { time, action, history: None })
                    && (forall|j: int| 0 <= j < pos ==> old(self).actions@[j].time.ms() <= time.ms())
                    && (forall|j: int|
                    pos <= j < old(self).actions@.len() ==> old(self).actions@[j].time.ms()
                        > time.ms()),
    {
        let mut pos: usize = 0;
        while pos < self.actions.len() && self.actions[pos].time.is_at_or_before(&time)
            invariant
                pos <= self.actions@.len(),
                forall|j: int| 0 <= j < pos ==> self.actions@[j].time.ms() <= time.ms(),
            decreases self.actions@.len() - pos,
        {
            pos = pos + 1;
        }
        let ghost p = pos as int;
        proof {
            assert forall|j: int| p <= j < old(self).actions@.len() implies old(self).actions@[j].time.ms()
                > time.ms() by {
                assert(old(self).actions@[p].time.ms() > time.ms());
            }
        }
        self.actions.insert(pos, TrackAction { time, action, history: None });
        proof {
            let s = self.actions@;
            assert forall|j: int, k: int| 0 <= j <= k < s.len() implies s[j].time.ms()
                <= s[k].time.ms() by {
                if j < p && k < p {
                } else if j < p && k == p {
                } else if j < p && k > p {
                    assert(s[k] == old(self).actions@[k - 1]);
                } else if j == p && k > p {
                    assert(s[k] == old(self).actions@[k - 1]);
                } else if j > p {
                    assert(s[k] == old(self).actions@[k - 1]);
                    assert(s[j] == old(self).actions@[j - 1]);
                }
            }
        }
    }

    /// The actions due at `time` that have not run, grouped by the
    /// millisecond they are scheduled at, earliest first; in each group the
    /// actions' indices in track order.
    pub fn unrun_actions_at_time(&self, time: Time) -> (r: TimeGroups)
        requires
            self.wf(),
        ensures
            forall|g: int, h: int|
                0 <= g < h < r.groups@.len() ==> r.groups@[g].time.ms() < r.groups@[h].time.ms(),
            forall|g: int, x: int|
                0 <= g < r.groups@.len() && 0 <= x < r.groups@[g].actions@.len() ==> {
                    &&& 0 <= #[trigger] r.groups@[g].actions@[x] < self.actions@.len()
                    &&& self.unrun(r.groups@[g].actions@[x] as int, time)
                    &&& self.actions@[r.groups@[g].actions@[x] as int].time.ms()
                        == r.groups@[g].time.ms()
                },
            forall|k: int|
                0 <= k < self.actions@.len() && self.unrun(k, time) ==> exists|g: int, x: int|
                    0 <= g < r.groups@.len() && 0 <= x < r.groups@[g].actions@.len()
                        && r.groups@[g].actions@[x] == k,
            // Each group lists its actions in track order, each once.
            forall|g: int, x: int, y: int|
                0 <= g < r.groups@.len() && 0 <= x < y < r.groups@[g].actions@.len()
                    ==> r.groups@[g].actions@[x] < r.groups@[g].actions@[y],
    {
        let mut groups: Vec<TimeGroup> = Vec::new();
        let mut k: usize = 0;
        while k < self.actions.len()
            invariant
                k <= self.actions@.len(),
                self.wf(),
                forall|g: int, h: int|
                    0 <= g < h < groups@.len() ==> groups@[g].time.ms() < groups@[h].time.ms(),
                groups@.len() > 0 ==> forall|j: int|
                    k <= j < self.actions@.len() ==> groups@[groups@.len() - 1].time.ms()
                        <= self.actions@[j].time.ms(),
                forall|g: int, x: int|
                    0 <= g < groups@.len() && 0 <= x < groups@[g].actions@.len() ==> {
                        &&& 0 <= #[trigger] groups@[g].actions@[x] < k
                        &&& self.unrun(groups@[g].actions@[x] as int, time)
                        &&& self.actions@[groups@[g].actions@[x] as int].time.ms()
                            == groups@[g].time.ms()
                    },
                forall|j: int|
                    0 <= j < k && self.unrun(j, time) ==> exists|g: int, x: int|
                        0 <= g < groups@.len() && 0 <= x < groups@[g].actions@.len()
                            && groups@[g].actions@[x] == j,
                forall|g: int, x: int, y: int|
                    0 <= g < groups@.len() && 0 <= x < y < groups@[g].actions@.len()
                        ==> groups@[g].actions@[x] < groups@[g].actions@[y],
            decreases self.actions@.len() - k,
        {
            let action = &self.actions[k];
            if action.time.is_at_or_before(&time) && self.offset.is_at_or_before(&action.time)
                && action.history.is_none() {
                let n = groups.len();
                let ghost before = groups@;
                if n > 0 && groups[n - 1].time.same_as(&action.time) {
                    let mut last = TimeGroup { time: action.time, actions: Vec::new() };
                    groups.set_and_swap(n - 1, &mut last);
                    last.actions.push(k);
                    groups.set(n - 1, last);
                    proof {
                        assert forall|j: int|
                            0 <= j < k + 1 && self.unrun(j, time) implies exists|g: int, x: int|
                            0 <= g < groups@.len() && 0 <= x < groups@[g].actions@.len()
                                && groups@[g].actions@[x] == j by {
                            if j == k {
                                let x = (groups@[n - 1].actions@.len() - 1) as int;
                                assert(groups@[n - 1].actions@[x] == j);
                            } else {
                                let (g, x) = choose|g: int, x: int|
                                    0 <= g < before.len() && 0 <= x < before[g].actions@.len()
                                        && before[g].actions@[x] == j;
                                if g == n - 1 {
                                    assert(groups@[g].actions@[x] == j);
                                } else {
                                    assert(groups@[g] == before[g]);
                                }
                            }
                        }
                    }
                } else {
                    let mut actions: Vec<usize> = Vec::new();
                    actions.push(k);
                    groups.push(TimeGroup { time: action.time, actions });
                    proof {
                        assert forall|j: int|
                            0 <= j < k + 1 && self.unrun(j, time) implies exists|g: int, x: int|
                            0 <= g < groups@.len() && 0 <= x < groups@[g].actions@.len()
                                && groups@[g].actions@[x] == j by {
                            if j == k {
                                assert(groups@[n as int].actions@[0] == j);
                            } else {
                                let (g, x) = choose|g: int, x: int|
                                    0 <= g < before.len() && 0 <= x < before[g].actions@.len()
                                        && before[g].actions@[x] == j;
                                assert(groups@[g] == before[g]);
                            }
                        }
                    }
                }
            }
            k = k + 1;
        }
        TimeGroups { groups }
    }

    /// Marks every action scheduled at `time` (to the millisecond) as run
    /// from checkpoint `history_id`.
    pub fn set_action_history_for_time(&mut self, time: Time, history_id: HistoryID)
        ensures
            final(self).same_schedule(*old(self)),
            forall|k: int|
                0 <= k < old(self).actions@.len() ==> (#[trigger] final(self).actions@[k]).history
                    == if old(self).actions@[k].time.ms() == time.ms() {
                    Some(history_id)
                } else {
                    old(self).actions@[k].history
                },
    {
        let mut k: usize = 0;
        while k < self.actions.len()
            invariant
                k <= self.actions@.len(),
                self.same_schedule(*old(self)),
                forall|j: int|
                    0 <= j < self.actions@.len() ==> (#[trigger] self.actions@[j]).history
                        == if j < k && old(self).actions@[j].time.ms() == time.ms() {
                        Some(history_id)
                    } else {
                        old(self).actions@[j].history
                    },
            decreases self.actions@.len() - k,
        {
            if self.actions[k].time.same_as(&time) {
                let mut a = TrackAction::new(time, Action::new());
                self.actions.set_and_swap(k, &mut a);
                a.set_history(history_id);
                self.actions.set(k, a);
            }
            k = k + 1;
        }
    }

    /// The checkpointed action with the latest time at or before `time`; the
    /// last such in track order when several share that time.
    pub fn get_closest_action_to_time_with_history(&self, time: Time) -> (r: Option<
        &TrackAction,
    >)
        requires
            self.wf(),
        ensures
            r.is_none() <==> forall|k: int|
                0 <= k < self.actions@.len() ==> !(self.actions@[k].history.is_some()
                    && self.actions@[k].time.ms() <= time.ms()),
            r.is_some() ==> exists|k: int|
                0 <= k < self.actions@.len() && *r.unwrap() == self.actions@[k]
                    && self.actions@[k].history.is_some() && self.actions@[k].time.ms()
                    <= time.ms() && forall|j: int|
                    k < j < self.actions@.len() ==> !(self.actions@[j].history.is_some()
                        && self.actions@[j].time.ms() <= time.ms()),
    {
        let mut closest: Option<usize> = None;
        let mut k: usize = 0;
        while k < self.actions.len()
            invariant
                k <= self.actions@.len(),
                self.wf(),
                closest.is_none() ==> forall|j: int|
                    0 <= j < k ==> !(self.actions@[j].history.is_some()
                        && self.actions@[j].time.ms() <= time.ms()),
                closest.is_some() ==> {
                    let c = closest.unwrap() as int;
                    &&& 0 <= c < k
                    &&& self.actions@[c].history.is_some()
                    &&& self.actions@[c].time.ms() <= time.ms()
                    &&& forall|j: int|
                        c < j < k ==> !(self.actions@[j].history.is_some()
                            && self.actions@[j].time.ms() <= time.ms())
                },
            decreases self.actions@.len() - k,
        {
            let action = &self.actions[k];
            if action.time.is_at_or_before(&time) && action.history.is_some() {
                closest = Some(k);
            }
            k = k + 1;
        }
        match closest {
            Some(c) => Some(&self.actions[c]),
            None => None,
        }
    }

    /// Marks every action as not run.
    pub fn clear_history(&mut self)
        ensures
            final(self).same_schedule(*old(self)),
            forall|k: int|
                0 <= k < old(self).actions@.len() ==> (#[trigger] final(self).actions@[k]).history
                    == None::<HistoryID>,
    {
        let mut k: usize = 0;
        while k < self.actions.len()
            invariant
                k <= self.actions@.len(),
                self.same_schedule(*old(self)),
                forall|j: int|
                    0 <= j < self.actions@.len() ==> (#[trigger] self.actions@[j]).history
                        == if j < k {
                        None::<HistoryID>
                    } else {
                        old(self).actions@[j].history
                    },
            decreases self.actions@.len() - k,
        {
            let mut a = TrackAction::new(Time { nanoseconds: 0 }, Action::new());
            self.actions.set_and_swap(k, &mut a);
            a.clear_history();
            self.actions.set(k, a);
            k = k + 1;
        }
    }

    /// Marks every action scheduled at or after `time`, or run from checkpoint
    /// `limit` or a later one, as not run.
    pub fn clear_history_from(&mut self, time: Time, limit: HistoryID)
        ensures
            final(self).same_schedule(*old(self)),
            forall|k: int|
                0 <= k < old(self).actions@.len() ==> (#[trigger] final(self).actions@[k]).history
                    == if old(self).actions@[k].time.ms() >= time.ms() || (old(self).actions@[k].history.is_some()
                    && old(self).actions@[k].history.unwrap() >= limit) {
                    None::<HistoryID>
                } else {
                    old(self).actions@[k].history
                },
    {
        let mut k: usize = 0;
        while k < self.actions.len()
            invariant
                k <= self.actions@.len(),
                self.same_schedule(*old(self)),
                forall|j: int|
                    0 <= j < self.actions@.len() ==> (#[trigger] self.actions@[j]).history
                        == if j < k && (old(self).actions@[j].time.ms() >= time.ms() || (old(self).actions@[j].history.is_some()
                        && old(self).actions@[j].history.unwrap() >= limit)) {
                        None::<HistoryID>
                    } else {
                        old(self).actions@[j].history
                    },
            decreases self.actions@.len() - k,
        {
            let stale = match self.actions[k].history {
                Some(h) => h >= limit,
                None => false,
            };
            if time.is_at_or_before(&self.actions[k].time) || stale {
                let mut a = TrackAction::new(Time { nanoseconds: 0 }, Action::new());
                self.actions.set_and_swap(k, &mut a);
                a.clear_history();
                self.actions.set(k, a);
            }
            k = k + 1;
        }
    }

    /// Marks every action scheduled at or after `time` as not run.
    pub fn clear_history_after_time(&mut self, time: Time)
        ensures
            final(self).same_schedule(*old(self)),
            forall|k: int|
                0 <= k < old(self).actions@.len() ==> (#[trigger] final(self).actions@[k]).history
                    == if old(self).actions@[k].time.ms() >= time.ms() {
                    None::<HistoryID>
                } else {
                    old(self).actions@[k].history
                },
    {
        let mut k: usize = 0;
        while k < self.actions.len()
            invariant
                k <= self.actions@.len(),
                self.same_schedule(*old(self)),
                forall|j: int|
                    0 <= j < self.actions@.len() ==> (#[trigger] self.actions@[j]).history
                        == if j < k && old(self).actions@[j].time.ms() >= time.ms() {
                        None::<HistoryID>
                    } else {
                        old(self).actions@[j].history
                    },
            decreases self.actions@.len() - k,
        {
            if time.is_at_or_before(&self.actions[k].time) {
                let mut a = TrackAction::new(Time { nanoseconds: 0 }, Action::new());
                self.actions.set_and_swap(k, &mut a);
                a.clear_history();
                self.actions.set(k, a);
            }
            k = k + 1;
        }
    }
}

} // verus!
