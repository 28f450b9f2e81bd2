//! Queries: a small language of steps that selects fixtures by id.
use vstd::prelude::*;
use crate::fixture::FixtureID;

verus! {

/// A set of fixture ids.
#[derive(Clone, Debug)]
pub struct QueryResult {
    pub ids: Vec<FixtureID>,
}

impl View for QueryResult {
    type V = Set<FixtureID>;

    open spec fn view(&self) -> Set<FixtureID> {
        Set::new(|id: FixtureID| self.ids@.contains(id))
    }
}

pub open spec fn evens(s: Set<FixtureID>) -> Set<FixtureID> {
    s.filter(|id: FixtureID| id % 2 == 0)
}

pub open spec fn odds(s: Set<FixtureID>) -> Set<FixtureID> {
    s.filter(|id: FixtureID| id % 2 != 0)
}

pub open spec fn within(s: Set<FixtureID>, start: FixtureID, end: FixtureID) -> Set<FixtureID> {
    s.filter(|id: FixtureID| start <= id <= end)
}

impl QueryResult {
    pub fn new() -> (r: QueryResult)
        ensures
            r@ == Set::<FixtureID>::empty(),
    {
        let r = QueryResult { ids: Vec::new() };
        assert(r@ =~= Set::<FixtureID>::empty());
        r
    }

    pub fn contains(&self, id: &FixtureID) -> (r: bool)
        ensures
            r == self@.contains(*id),
    {
        let mut i: usize = 0;
        while i < self.ids.len()
            invariant
                i <= self.ids@.len(),
                forall|j: int| 0 <= j < i ==> self.ids@[j] != *id,
            decreases self.ids@.len() - i,
        {
            if self.ids[i] == *id {
                assert(self.ids@.contains(*id));
                return true;
            }
            i = i + 1;
        }
        false
    }

    pub fn insert(&mut self, id: FixtureID)
        ensures
            final(self)@ == old(self)@.insert(id),
    {
        if !self.contains(&id) {
            self.ids.push(id);
            proof {
                assert forall|x: FixtureID| self.ids@.contains(x) <==> (old(self).ids@.contains(x)
                    || x == id) by {
                    if old(self).ids@.contains(x) {
                        let k = choose|k: int| 0 <= k < old(self).ids@.len() && old(self).ids@[k] == x;
                        assert(self.ids@[k] == x);
                    }
                    if x == id {
                        assert(self.ids@[self.ids@.len() - 1] == x);
                    }
                    if self.ids@.contains(x) {
                        let k = choose|k: int| 0 <= k < self.ids@.len() && self.ids@[k] == x;
                        if k < old(self).ids@.len() {
                            assert(old(self).ids@[k] == x);
                        }
                    }
                }
            }
        }
        assert(self@ =~= old(self)@.insert(id));
    }

    /// Adds every id of `other`.
    pub fn extend(&mut self, other: &QueryResult)
        ensures
            final(self)@ == old(self)@.union(other@),
    {
        let mut i: usize = 0;
        while i < other.ids.len()
            invariant
                i <= other.ids@.len(),
                self@ == old(self)@.union(Set::new(|id: FixtureID| other.ids@.subrange(0, i as int).contains(id))),
            decreases other.ids@.len() - i,
        {
            let ghost before = self@;
            self.insert(other.ids[i]);
            i = i + 1;
            proof {
                assert(Set::new(|id: FixtureID| other.ids@.subrange(0, i as int).contains(id))
                    =~= Set::new(|id: FixtureID| other.ids@.subrange(0, i - 1).contains(id)).insert(
                    other.ids@[i - 1],
                )) by {
                    assert forall|id: FixtureID| other.ids@.subrange(0, i as int).contains(id)
                        <==> (other.ids@.subrange(0, i - 1).contains(id) || id == other.ids@[i
                        - 1]) by {
                        if other.ids@.subrange(0, i as int).contains(id) {
                            let k = choose|k: int|
                                0 <= k < i && #[trigger] other.ids@.subrange(0, i as int)[k] == id;
                            if k < i - 1 {
                                assert(other.ids@.subrange(0, i - 1)[k] == id);
                            }
                        }
                        if other.ids@.subrange(0, i - 1).contains(id) {
                            let k = choose|k: int|
                                0 <= k < i - 1 && #[trigger] other.ids@.subrange(0, i - 1)[k] == id;
                            assert(other.ids@.subrange(0, i as int)[k] == id);
                        }
                        if id == other.ids@[i - 1] {
                            assert(other.ids@.subrange(0, i as int)[i - 1] == id);
                        }
                    }
                }
                assert(self@ =~= old(self)@.union(
                    Set::new(|id: FixtureID| other.ids@.subrange(0, i as int).contains(id)),
                ));
            }
        }
        proof {
            assert(other.ids@.subrange(0, other.ids@.len() as int) =~= other.ids@);
            assert(self@ =~= old(self)@.union(other@));
        }
    }

    /// The ids for which `keep` holds, where `keep` is given as the kind of
    /// filter: 0 even ids, 1 odd ids, 2 ids in `start..=end`.
    fn filtered(&self, kind: u8, start: FixtureID, end: FixtureID) -> (r: QueryResult)
        requires
            kind <= 2,
        ensures
            r@ == if kind == 0 {
                evens(self@)
            } else if kind == 1 {
                odds(self@)
            } else {
                within(self@, start, end)
            },
    {
        let mut out = QueryResult::new();
        let mut i: usize = 0;
        let ghost target = if kind == 0 {
            evens(self@)
        } else if kind == 1 {
            odds(self@)
        } else {
            within(self@, start, end)
        };
        while i < self.ids.len()
            invariant
                i <= self.ids@.len(),
                kind <= 2,
                target == (if kind == 0 {
                    evens(self@)
                } else if kind == 1 {
                    odds(self@)
                } else {
                    within(self@, start, end)
                }),
                forall|id: FixtureID|
                    out@.contains(id) <==> (target.contains(id) && exists|j: int|
                        0 <= j < i && self.ids@[j] == id),
            decreases self.ids@.len() - i,
        {
            let id = self.ids[i];
            let keep = if kind == 0 {
                id % 2 == 0
            } else if kind == 1 {
                id % 2 != 0
            } else {
                start <= id && id <= end
            };
            proof {
                assert(self.ids@[i as int] == id);
                assert(self@.contains(id));
                assert(keep == target.contains(id));
            }
            let ghost before = out@;
            assert forall|x: FixtureID| before.contains(x) <==> (target.contains(x) && exists|j: int|
                0 <= j < i && self.ids@[j] == x) by {}
            if keep {
                out.insert(id);
            }
            i = i + 1;
            proof {
                assert forall|x: FixtureID|
                    out@.contains(x) <==> (target.contains(x) && exists|j: int|
                        0 <= j < i && self.ids@[j] == x) by {
                    assert(before.contains(x) <==> (target.contains(x) && exists|j: int|
                        0 <= j < i - 1 && self.ids@[j] == x));
                    if exists|j: int| 0 <= j < i && self.ids@[j] == x {
                        let j = choose|j: int| 0 <= j < i && self.ids@[j] == x;
                        if j < i - 1 {
                            assert(exists|j2: int| 0 <= j2 < i - 1 && self.ids@[j2] == x);
                        } else {
                            assert(x == id);
                        }
                    }
                    if x == id {
                        assert(self.ids@[i - 1] == x);
                    }
                    if (exists|j: int| 0 <= j < i - 1 && self.ids@[j] == x) {
                        let j = choose|j: int| 0 <= j < i - 1 && self.ids@[j] == x;
                        assert(self.ids@[j] == x && 0 <= j < i);
                    }
                }
            }
        }
        proof {
            assert forall|x: FixtureID| out@.contains(x) <==> target.contains(x) by {
                if target.contains(x) {
                    assert(self@.contains(x));
                    let j = choose|j: int| 0 <= j < self.ids@.len() && self.ids@[j] == x;
                }
            }
            assert(out@ =~= target);
        }
        out
    }
}

#[derive(Debug)]
pub enum Step {
    All,
    Even,
    Odd,
    Range(FixtureID, FixtureID),
    Id(FixtureID),
    SubQuery(Query),
}

#[derive(Debug)]
pub struct Query {
    pub steps: Vec<Step>,
}

/// Where evaluation stands after some steps: the ids found, and the ids
/// later steps choose from.
pub struct QueryState {
    pub result: Set<FixtureID>,
    pub candidates: Set<FixtureID>,
}

impl Query {
    /// The state after the first `n` steps, starting from `candidates`. `All`,
    /// `Id` and `Range` add candidates to the result; `Even` and `Odd` add
    /// the even or odd candidates when they come first and otherwise narrow
    /// the result; a sub-query replaces the candidates with what it selects.
    pub open spec fn state_after(self, n: nat, candidates: Set<FixtureID>) -> QueryState
        decreases self, n,
    {
        if n == 0 || n > self.steps@.len() {
            QueryState { result: Set::empty(), candidates }
        } else {
            let before = self.state_after((n - 1) as nat, candidates);
            let c = before.candidates;
            let result = before.result;
            match self.steps@[n - 1] {
                Step::All => QueryState { result: result.union(c), candidates: c },
                Step::Even => if n == 1 {
                    QueryState { result: result.union(evens(c)), candidates: c }
                } else {
                    QueryState { result: evens(result), candidates: c }
                },
                Step::Odd => if n == 1 {
                    QueryState { result: result.union(odds(c)), candidates: c }
                } else {
                    QueryState { result: odds(result), candidates: c }
                },
                Step::Id(id) => QueryState {
                    result: if c.contains(id) {
                        result.insert(id)
                    } else {
                        result
                    },
                    candidates: c,
                },
                Step::Range(start, end) => QueryState {
                    result: result.union(within(c, start, end)),
                    candidates: c,
                },
                Step::SubQuery(q) => QueryState { result, candidates: q.spec_evaluate(c) },
            }
        }
    }

    /// The ids the query selects from `candidates`.
    pub open spec fn spec_evaluate(self, candidates: Set<FixtureID>) -> Set<FixtureID>
        decreases self, self.steps@.len() + 1,
    {
        self.state_after(self.steps@.len(), candidates).result
    }

    pub fn new(steps: Vec<Step>) -> (r: Query)
        ensures
            r.steps == steps,
    {
        Query { steps }
    }

    /// A copy of this query, step for step: every step is the same, and each
    /// sub-query a copy that selects alike, so the copy selects what this
    /// query selects from any candidates.
    pub fn duplicate(&self) -> (r: Query)
        ensures
            r.steps@.len() == self.steps@.len(),
            forall|i: int|
                0 <= i < self.steps@.len() ==> same_step(#[trigger] self.steps@[i], r.steps@[i]),
            forall|c: Set<FixtureID>| #[trigger] r.spec_evaluate(c) == self.spec_evaluate(c),
        decreases self,
    {
        let mut steps: Vec<Step> = Vec::new();
        let mut i: usize = 0;
        while i < self.steps.len()
            invariant
                i <= self.steps@.len(),
                steps@.len() == i,
                forall|j: int| 0 <= j < i ==> same_step(#[trigger] self.steps@[j], steps@[j]),
            decreases self.steps@.len() - i,
        {
            let step = match &self.steps[i] {
                Step::All => Step::All,
                Step::Even => Step::Even,
                Step::Odd => Step::Odd,
                Step::Range(a, b) => Step::Range(*a, *b),
                Step::Id(id) => Step::Id(*id),
                Step::SubQuery(q) => {
                    assert(decreases_to!(self.steps => self.steps@[i as int]));
                    Step::SubQuery(q.duplicate())
                },
            };
            steps.push(step);
            i = i + 1;
        }
        let r = Query { steps };
        proof {
            assert forall|c: Set<FixtureID>| #[trigger] r.spec_evaluate(c) == self.spec_evaluate(c) by {
                lemma_same_steps_same_state(*self, r, self.steps@.len(), c);
            }
        }
        r
    }

    /// The ids the query selects from `fixtures`.
    pub fn evaluate(&self, fixtures: &QueryResult) -> (r: QueryResult)
        ensures
            r@ == self.spec_evaluate(fixtures@),
        decreases self,
    {
        let mut result = QueryResult::new();
        let mut candidates = fixtures.clone_result();
        let mut i: usize = 0;
        while i < self.steps.len()
            invariant
                i <= self.steps@.len(),
                result@ == self.state_after(i as nat, fixtures@).result,
                candidates@ == self.state_after(i as nat, fixtures@).candidates,
            decreases self.steps@.len() - i,
        {
            match &self.steps[i] {
                Step::All => {
                    result.extend(&candidates);
                },
                Step::Even => {
                    if i == 0 {
                        let found = Self::even(&candidates);
                        result.extend(&found);
                    } else {
                        result = Self::even(&result);
                    }
                },
                Step::Odd => {
                    if i == 0 {
                        let found = Self::odd(&candidates);
                        result.extend(&found);
                    } else {
                        result = Self::odd(&result);
                    }
                },
                Step::Id(id) => {
                    let found = Self::id(id, &candidates);
                    result.extend(&found);
                    proof {
                        let before = self.state_after(i as nat, fixtures@).result;
                        if candidates@.contains(*id) {
                            assert(result@ =~= before.insert(*id));
                        } else {
                            assert(result@ =~= before);
                        }
                    }
                },
                Step::Range(start, end) => {
                    let found = Self::range(start, end, &candidates);
                    result.extend(&found);
                },
                Step::SubQuery(query) => {
                    assert(decreases_to!(self.steps => self.steps@[i as int]));
                    candidates = query.evaluate(&candidates);
                },
            }
            i = i + 1;
        }
        result
    }

    /// The even ids of `fixtures`.
    pub fn even(fixtures: &QueryResult) -> (r: QueryResult)
        ensures
            r@ == evens(fixtures@),
    {
        fixtures.filtered(0, 0, 0)
    }

    /// The odd ids of `fixtures`.
    pub fn odd(fixtures: &QueryResult) -> (r: QueryResult)
        ensures
            r@ == odds(fixtures@),
    {
        fixtures.filtered(1, 0, 0)
    }

    /// `{id}` when `fixtures` holds `id`, else nothing.
    pub fn id(id: &FixtureID, fixtures: &QueryResult) -> (r: QueryResult)
        ensures
            r@ == if fixtures@.contains(*id) {
                Set::<FixtureID>::empty().insert(*id)
            } else {
                Set::<FixtureID>::empty()
            },
    {
        let mut result = QueryResult::new();
        if fixtures.contains(id) {
            result.insert(*id);
        }
        result
    }

    /// The ids of `fixtures` in `start..=end`.
    pub fn range(start: &FixtureID, end: &FixtureID, fixtures: &QueryResult) -> (r: QueryResult)
        ensures
            r@ == within(fixtures@, *start, *end),
    {
        fixtures.filtered(2, *start, *end)
    }
}

/// Steps never take the result or the candidates beyond a bound they start within.
proof fn lemma_steps_stay_within(
    q: Query,
    from: nat,
    n: nat,
    candidates: Set<FixtureID>,
    bound: Set<FixtureID>,
)
    requires
        1 <= from <= n <= q.steps@.len(),
        q.state_after(from, candidates).result.subset_of(bound),
        q.state_after(from, candidates).candidates.subset_of(bound),
    ensures
        q.state_after(n, candidates).result.subset_of(bound),
        q.state_after(n, candidates).candidates.subset_of(bound),
    decreases q, n,
{
    if n > from {
        lemma_steps_stay_within(q, from, (n - 1) as nat, candidates, bound);
        let before = q.state_after((n - 1) as nat, candidates);
        let after = q.state_after(n, candidates);
        match q.steps@[n - 1] {
            Step::SubQuery(sub) => {
                assert(decreases_to!(q.steps => q.steps@[n - 1]));
                lemma_evaluate_within(sub, before.candidates);
            },
            Step::Even => {
                assert(evens(before.result).subset_of(before.result));
            },
            Step::Odd => {
                assert(odds(before.result).subset_of(before.result));
            },
            Step::Range(a, b) => {
                assert(within(before.candidates, a, b).subset_of(before.candidates));
            },
            _ => {},
        }
    }
}

/// A query selects only among its candidates.
pub proof fn lemma_evaluate_within(q: Query, candidates: Set<FixtureID>)
    ensures
        q.spec_evaluate(candidates).subset_of(candidates),
    decreases q, q.steps@.len() + 1,
{
    reveal_with_fuel(Query::state_after, 2);
    if q.steps@.len() > 0 {
        match q.steps@[0] {
            Step::SubQuery(sub) => {
                assert(decreases_to!(q.steps => q.steps@[0]));
                lemma_evaluate_within(sub, candidates);
            },
            Step::Even => {
                assert(evens(candidates).subset_of(candidates));
            },
            Step::Odd => {
                assert(odds(candidates).subset_of(candidates));
            },
            Step::Range(a, b) => {
                assert(within(candidates, a, b).subset_of(candidates));
            },
            _ => {},
        }
        lemma_steps_stay_within(q, 1, q.steps@.len(), candidates, candidates);
    } else {
        assert(q.spec_evaluate(candidates) =~= Set::<FixtureID>::empty());
    }
}

/// A sub-query narrows rather than re-expands: a query that opens with a
/// sub-query selects only among what the sub-query selects.
pub proof fn law_sub_query_narrows(q: Query, sub: Query, candidates: Set<FixtureID>)
    requires
        q.steps@.len() >= 1,
        q.steps@[0] == Step::SubQuery(sub),
    ensures
        q.spec_evaluate(candidates).subset_of(sub.spec_evaluate(candidates)),
{
    reveal_with_fuel(Query::state_after, 2);
    lemma_steps_stay_within(q, 1, q.steps@.len(), candidates, sub.spec_evaluate(candidates));
}

/// Two steps that act alike: equal, or sub-queries that select alike.
pub open spec fn same_step(a: Step, b: Step) -> bool {
    match (a, b) {
        (Step::SubQuery(x), Step::SubQuery(y)) => forall|c: Set<FixtureID>|
            #[trigger] x.spec_evaluate(c) == y.spec_evaluate(c),
        _ => a == b,
    }
}

/// Queries whose steps act alike pass through the same states.
proof fn lemma_same_steps_same_state(a: Query, b: Query, n: nat, c: Set<FixtureID>)
    requires
        a.steps@.len() == b.steps@.len(),
        forall|i: int| 0 <= i < a.steps@.len() ==> same_step(#[trigger] a.steps@[i], b.steps@[i]),
    ensures
        a.state_after(n, c) == b.state_after(n, c),
    decreases n,
{
    if n > 0 && n <= a.steps@.len() {
        lemma_same_steps_same_state(a, b, (n - 1) as nat, c);
        assert(same_step(a.steps@[n - 1], b.steps@[n - 1]));
        let before = a.state_after((n - 1) as nat, c);
        match (a.steps@[n - 1], b.steps@[n - 1]) {
            (Step::SubQuery(x), Step::SubQuery(y)) => {
                assert(x.spec_evaluate(before.candidates) == y.spec_evaluate(before.candidates));
            },
            _ => {
                assert(a.steps@[n - 1] == b.steps@[n - 1]);
            },
        }
    }
}

impl Clone for Query {
    fn clone(&self) -> (r: Query)
        ensures
            r.steps@.len() == self.steps@.len(),
            forall|i: int|
                0 <= i < self.steps@.len() ==> same_step(#[trigger] self.steps@[i], r.steps@[i]),
            forall|c: Set<FixtureID>| #[trigger] r.spec_evaluate(c) == self.spec_evaluate(c),
    {
        self.duplicate()
    }
}

impl QueryResult {
    /// A copy of this set.
    pub fn clone_result(&self) -> (r: QueryResult)
        ensures
            r@ == self@,
    {
        let ids = self.ids.clone();
        assert(ids@ =~= self.ids@);
        QueryResult { ids }
    }
}

/// Builds a query step by step.
#[derive(Debug)]
pub struct QueryBuilder {
    pub steps: Vec<Step>,
}

impl QueryBuilder {
    pub fn new() -> (r: QueryBuilder)
        ensures
            r.steps@.len() == 0,
    {
        QueryBuilder { steps: Vec::new() }
    }

    pub fn build(self) -> (r: Query)
        ensures
            r.steps@ == self.steps@,
    {
        Query { steps: self.steps }
    }

    pub fn all(self) -> (r: QueryBuilder)
        ensures
            r.steps@ == self.steps@.push(Step::All),
    {
        let mut steps = self.steps;
        steps.push(Step::All);
        QueryBuilder { steps }
    }

    pub fn even(self) -> (r: QueryBuilder)
        ensures
            r.steps@ == self.steps@.push(Step::Even),
    {
        let mut steps = self.steps;
        steps.push(Step::Even);
        QueryBuilder { steps }
    }

    pub fn odd(self) -> (r: QueryBuilder)
        ensures
            r.steps@ == self.steps@.push(Step::Odd),
    {
        let mut steps = self.steps;
        steps.push(Step::Odd);
        QueryBuilder { steps }
    }

    pub fn id(self, id: FixtureID) -> (r: QueryBuilder)
        ensures
            r.steps@ == self.steps@.push(Step::Id(id)),
    {
        let mut steps = self.steps;
        steps.push(Step::Id(id));
        QueryBuilder { steps }
    }

    pub fn range(self, start: FixtureID, end: FixtureID) -> (r: QueryBuilder)
        ensures
            r.steps@ == self.steps@.push(Step::Range(start, end)),
    {
        let mut steps = self.steps;
        steps.push(Step::Range(start, end));
        QueryBuilder { steps }
    }

    pub fn sub_query(self, query: Query) -> (r: QueryBuilder)
        ensures
            r.steps@ == self.steps@.push(Step::SubQuery(query)),
    {
        let mut steps = self.steps;
        steps.push(Step::SubQuery(query));
        QueryBuilder { steps }
    }
}

} // verus!
