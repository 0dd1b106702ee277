use vstd::prelude::*;

use crate::action::Action;
use crate::object::Object;
use crate::random::{draw_fraction, get_random_action, Gen, FRACTION_SCALE};
use crate::state::{lemma_code_round_trip, object_of, state_of_code, State, N_CODES};

verus! {

/// A candidate policy: a table from states to actions, with the fitness of
/// its latest evaluation.
///
/// The table has one entry per state code (`State::code`); the entry of a
/// reachable state holds its action, the entry of any other state is `None`.
/// `score` is the total reward that the latest evaluation collected over its
/// trials; the fitness is that total divided by the number of trials, which is
/// the same for every policy of a population.
#[derive(Clone, Debug)]
pub struct Agent {
    pub id: i32,
    pub policy: Vec<Option<Action>>,
    pub score: u32,
}

/// A table whose entries are exactly those of the reachable states.
pub open spec fn policy_wf(t: Seq<Option<Action>>) -> bool {
    &&& t.len() == N_CODES
    &&& forall|i: int|
        0 <= i < N_CODES ==> (#[trigger] t[i] is Some <==> state_of_code(i as nat).reachable())
}

/// The states that an agent inside a well-formed grid can see.
pub open spec fn reachable_states() -> Set<State> {
    Set::new(|s: State| s.reachable())
}

/// The states to which table `t` gives an action.
pub open spec fn policy_domain(t: Seq<Option<Action>>) -> Set<State> {
    Set::new(|s: State| t[s.code() as int] is Some)
}

/// The random values that decide one offspring. Each sequence has one entry
/// per state code; all fractions are numerators over `FRACTION_SCALE`.
pub struct CrossoverDraws {
    /// Drawn once: how much of the offspring comes from the first parent.
    pub fraction: u32,
    /// Per state: the first parent's action is inherited when this is below
    /// `fraction`, the second parent's otherwise.
    pub inherit: Seq<u32>,
    /// Per state: the state mutates when this is below the threshold.
    pub mutate: Seq<u32>,
    /// Per state: the action that a mutation puts in.
    pub fresh: Seq<Action>,
}

impl CrossoverDraws {
    pub open spec fn valid(self) -> bool {
        &&& self.fraction < FRACTION_SCALE
        &&& self.inherit.len() == N_CODES
        &&& self.mutate.len() == N_CODES
        &&& self.fresh.len() == N_CODES
        &&& forall|i: int|
            0 <= i < N_CODES ==> #[trigger] self.inherit[i] < FRACTION_SCALE && self.mutate[i]
                < FRACTION_SCALE
    }
}

/// The offspring's action for one state: a fresh action when the state
/// mutates, else the first parent's when its inherit draw is below the
/// fraction, else the second parent's.
pub open spec fn offspring_action(
    a: Action,
    b: Action,
    fraction: u32,
    inherit: u32,
    mutate: u32,
    fresh: Action,
    threshold: u32,
) -> Action {
    if mutate < threshold {
        fresh
    } else if inherit < fraction {
        a
    } else {
        b
    }
}

/// The offspring table that the parents' tables `a` and `b` and the draws
/// `d` give.
pub open spec fn offspring_policy(
    a: Seq<Option<Action>>,
    b: Seq<Option<Action>>,
    d: CrossoverDraws,
    threshold: u32,
) -> Seq<Option<Action>> {
    Seq::new(
        N_CODES as nat,
        |i: int|
            if a[i] is Some {
                Some(
                    offspring_action(
                        a[i]->Some_0,
                        b[i]->Some_0,
                        d.fraction,
                        d.inherit[i],
                        d.mutate[i],
                        d.fresh[i],
                        threshold,
                    ),
                )
            } else {
                None
            },
    )
}

/// The offspring's action for a state depends only on the single fraction
/// and on that state's own draws: two sets of draws that agree on those give
/// the same action for that state, and draws that agree everywhere give the
/// same offspring.
pub proof fn lemma_offspring_follows_draws(
    a: Seq<Option<Action>>,
    b: Seq<Option<Action>>,
    d1: CrossoverDraws,
    d2: CrossoverDraws,
    threshold: u32,
    i: int,
)
    requires
        d1.valid(),
        d2.valid(),
        0 <= i < N_CODES,
        d1.fraction == d2.fraction,
        d1.inherit[i] == d2.inherit[i],
        d1.mutate[i] == d2.mutate[i],
        d1.fresh[i] == d2.fresh[i],
    ensures
        offspring_policy(a, b, d1, threshold)[i] == offspring_policy(a, b, d2, threshold)[i],
        d1 == d2 ==> offspring_policy(a, b, d1, threshold) == offspring_policy(a, b, d2, threshold),
{
}

impl Agent {
    pub open spec fn wf(&self) -> bool {
        policy_wf(self.policy@)
    }

    /// The action that the policy gives in state `s`, if any.
    pub open spec fn action_for(&self, s: State) -> Option<Action> {
        self.policy@[s.code() as int]
    }

    /// The action for `state`; `None` only for a state outside the domain.
    pub fn get_action(&self, state: &State) -> (a: Option<Action>)
        requires
            self.wf(),
        ensures
            a == self.action_for(*state),
            a is Some <==> state.reachable(),
    {
        proof {
            lemma_code_round_trip(*state);
        }
        let i = state.code_of();
        self.policy[i]
    }
}

fn object_from_rank(k: usize) -> (o: Object)
    ensures
        o == object_of(k as nat),
{
    if k == 0 {
        Object::Empty
    } else if k == 1 {
        Object::Goal
    } else {
        Object::Wall
    }
}

/// The state whose code is `i`.
pub fn state_from_code(i: usize) -> (s: State)
    ensures
        s == state_of_code(i as nat),
{
    State {
        up: object_from_rank(i / 81),
        down: object_from_rank((i / 27) % 3),
        left: object_from_rank((i / 9) % 3),
        right: object_from_rank((i / 3) % 3),
        center: object_from_rank(i % 3),
    }
}

/// The table that gives each reachable state the action at its code in
/// `actions`, and no action to any other state.
pub open spec fn table_of_actions(actions: Seq<Action>) -> Seq<Option<Action>> {
    Seq::new(
        N_CODES as nat,
        |i: int|
            if state_of_code(i as nat).reachable() {
                Some(actions[i])
            } else {
                None
            },
    )
}

/// The policy that gives each reachable state the action at its code in
/// `actions`.
pub fn agent_from_actions(id: i32, actions: &Vec<Action>) -> (agent: Agent)
    requires
        actions@.len() == N_CODES,
    ensures
        agent.wf(),
        agent.id == id,
        agent.score == 0,
        agent.policy@ == table_of_actions(actions@),
{
    let mut policy: Vec<Option<Action>> = Vec::new();
    let mut i: usize = 0;
    while i < N_CODES
        invariant
            i <= N_CODES,
            actions@.len() == N_CODES,
            policy@.len() == i,
            forall|k: int|
                0 <= k < i ==> #[trigger] policy@[k] == if state_of_code(k as nat).reachable() {
                    Some(actions@[k])
                } else {
                    None
                },
        decreases N_CODES - i,
    {
        let state = state_from_code(i);
        if state.is_reachable() {
            policy.push(Some(actions[i]));
        } else {
            policy.push(None);
        }
        i = i + 1;
    }
    assert(policy@ =~= table_of_actions(actions@));
    Agent { id, policy, score: 0 }
}

/// A policy with a uniformly drawn action for each reachable state, drawn
/// in ascending order of the states; it is `agent_from_actions` of the draws.
pub fn create_random_agent(rng: &mut Gen, id: i32) -> (agent: Agent)
    ensures
        agent.wf(),
        agent.id == id,
        agent.score == 0,
        exists|actions: Seq<Action>|
            actions.len() == N_CODES && agent.policy@ == #[trigger] table_of_actions(actions),
{
    let mut actions: Vec<Action> = Vec::new();
    let mut i: usize = 0;
    while i < N_CODES
        invariant
            i <= N_CODES,
            actions@.len() == i,
        decreases N_CODES - i,
    {
        let state = state_from_code(i);
        if state.is_reachable() {
            actions.push(get_random_action(rng));
        } else {
            actions.push(Action::PickUp);
        }
        i = i + 1;
    }
    agent_from_actions(id, &actions)
}

/// Crossing a table with itself gives it back when no state mutates,
/// whatever the fraction and the inherit draws.
pub proof fn lemma_self_crossover(t: Seq<Option<Action>>, d: CrossoverDraws, threshold: u32)
    requires
        policy_wf(t),
        d.valid(),
        forall|i: int| 0 <= i < N_CODES ==> #[trigger] d.mutate[i] >= threshold,
    ensures
        offspring_policy(t, t, d, threshold) == t,
{
    assert(offspring_policy(t, t, d, threshold) =~= t);
}

/// The offspring of two policies under the given draws: per state, a fresh
/// action when its mutate draw is below `mutation_threshold`, else the first
/// parent's action when its inherit draw is below `fraction`, else the second
/// parent's. All three sequences are indexed by state code.
pub fn offspring_from_draws(
    parent_a: &Agent,
    parent_b: &Agent,
    id: i32,
    fraction: u32,
    inherit: &Vec<u32>,
    mutate: &Vec<u32>,
    fresh: &Vec<Action>,
    mutation_threshold: u32,
) -> (child: Agent)
    requires
        parent_a.wf(),
        parent_b.wf(),
        inherit@.len() == N_CODES,
        mutate@.len() == N_CODES,
        fresh@.len() == N_CODES,
    ensures
        child.wf(),
        child.id == id,
        child.score == 0,
        child.policy@ == offspring_policy(
            parent_a.policy@,
            parent_b.policy@,
            CrossoverDraws { fraction, inherit: inherit@, mutate: mutate@, fresh: fresh@ },
            mutation_threshold,
        ),
{
    let ghost d = CrossoverDraws { fraction, inherit: inherit@, mutate: mutate@, fresh: fresh@ };
    let mut policy: Vec<Option<Action>> = Vec::new();
    let mut i: usize = 0;
    while i < N_CODES
        invariant
            i <= N_CODES,
            parent_a.wf(),
            parent_b.wf(),
            inherit@.len() == N_CODES,
            mutate@.len() == N_CODES,
            fresh@.len() == N_CODES,
            policy@.len() == i,
            d == (CrossoverDraws { fraction, inherit: inherit@, mutate: mutate@, fresh: fresh@ }),
            forall|k: int|
                0 <= k < i ==> #[trigger] policy@[k] == if parent_a.policy@[k] is Some {
                    Some(
                        offspring_action(
                            parent_a.policy@[k]->Some_0,
                            parent_b.policy@[k]->Some_0,
                            fraction,
                            inherit@[k],
                            mutate@[k],
                            fresh@[k],
                            mutation_threshold,
                        ),
                    )
                } else {
                    None
                },
        decreases N_CODES - i,
    {
        match parent_a.policy[i] {
            Some(action_a) => {
                let action = if mutate[i] < mutation_threshold {
                    fresh[i]
                } else if inherit[i] < fraction {
                    action_a
                } else {
                    match parent_b.policy[i] {
                        Some(action_b) => action_b,
                        None => {
                            proof {
                                assert(false);
                            }
                            action_a
                        },
                    }
                };
                policy.push(Some(action));
            },
            None => {
                policy.push(None);
            },
        }
        i = i + 1;
    }
    assert(policy@ =~= offspring_policy(parent_a.policy@, parent_b.policy@, d, mutation_threshold));
    Agent { id, policy, score: 0 }
}

/// An offspring of two policies. One fraction is drawn for the whole
/// offspring; then, state by state in ascending order, an inherit draw and a
/// mutate draw, and a fresh action only when the mutate draw is below
/// `mutation_threshold`. Draws are fractions over `FRACTION_SCALE`; the
/// offspring is `offspring_from_draws` of them.
pub fn crossover_agents(
    rng: &mut Gen,
    parent_a: &Agent,
    parent_b: &Agent,
    id: i32,
    mutation_threshold: u32,
) -> (child: Agent)
    requires
        parent_a.wf(),
        parent_b.wf(),
    ensures
        child.wf(),
        child.id == id,
        child.score == 0,
        exists|d: CrossoverDraws|
            d.valid() && child.policy@ == #[trigger] offspring_policy(
                parent_a.policy@,
                parent_b.policy@,
                d,
                mutation_threshold,
            ),
{
    let fraction = draw_fraction(rng);
    let mut inherit: Vec<u32> = Vec::new();
    let mut mutate: Vec<u32> = Vec::new();
    let mut fresh: Vec<Action> = Vec::new();
    let mut i: usize = 0;
    while i < N_CODES
        invariant
            i <= N_CODES,
            parent_a.wf(),
            inherit@.len() == i,
            mutate@.len() == i,
            fresh@.len() == i,
            forall|k: int|
                0 <= k < i ==> #[trigger] inherit@[k] < FRACTION_SCALE && mutate@[k]
                    < FRACTION_SCALE,
        decreases N_CODES - i,
    {
        if parent_a.policy[i].is_some() {
            let inherit_draw = draw_fraction(rng);
            let mutate_draw = draw_fraction(rng);
            let action = if mutate_draw < mutation_threshold {
                get_random_action(rng)
            } else {
                Action::PickUp
            };
            inherit.push(inherit_draw);
            mutate.push(mutate_draw);
            fresh.push(action);
        } else {
            inherit.push(0);
            mutate.push(0);
            fresh.push(Action::PickUp);
        }
        i = i + 1;
    }
    let child = offspring_from_draws(
        parent_a,
        parent_b,
        id,
        fraction,
        &inherit,
        &mutate,
        &fresh,
        mutation_threshold,
    );
    assert((CrossoverDraws { fraction, inherit: inherit@, mutate: mutate@, fresh: fresh@ }).valid());
    child
}

/// How many of the codes below `n` belong to reachable states.
pub open spec fn reachable_codes(n: nat) -> nat
    decreases n,
{
    if n == 0 {
        0
    } else {
        reachable_codes((n - 1) as nat) + if state_of_code((n - 1) as nat).reachable() {
            1nat
        } else {
            0nat
        }
    }
}

/// Of the 243 states, 128 are reachable: two centres, eight vertical and
/// eight horizontal pairs of neighbours.
#[verifier::rlimit(100)]
pub proof fn lemma_reachable_count()
    ensures
        reachable_codes(N_CODES as nat) == 128,
{
    assert(reachable_codes(9) == 6) by {
        reveal_with_fuel(reachable_codes, 10);
    }
    assert(reachable_codes(18) == 12) by {
        reveal_with_fuel(reachable_codes, 10);
    }
    assert(reachable_codes(27) == 16) by {
        reveal_with_fuel(reachable_codes, 10);
    }
    assert(reachable_codes(36) == 22) by {
        reveal_with_fuel(reachable_codes, 10);
    }
    assert(reachable_codes(45) == 28) by {
        reveal_with_fuel(reachable_codes, 10);
    }
    assert(reachable_codes(54) == 32) by {
        reveal_with_fuel(reachable_codes, 10);
    }
    assert(reachable_codes(63) == 38) by {
        reveal_with_fuel(reachable_codes, 10);
    }
    assert(reachable_codes(72) == 44) by {
        reveal_with_fuel(reachable_codes, 10);
    }
    assert(reachable_codes(81) == 48) by {
        reveal_with_fuel(reachable_codes, 10);
    }
    assert(reachable_codes(90) == 54) by {
        reveal_with_fuel(reachable_codes, 10);
    }
    assert(reachable_codes(99) == 60) by {
        reveal_with_fuel(reachable_codes, 10);
    }
    assert(reachable_codes(108) == 64) by {
        reveal_with_fuel(reachable_codes, 10);
    }
    assert(reachable_codes(117) == 70) by {
        reveal_with_fuel(reachable_codes, 10);
    }
    assert(reachable_codes(126) == 76) by {
        reveal_with_fuel(reachable_codes, 10);
    }
    assert(reachable_codes(135) == 80) by {
        reveal_with_fuel(reachable_codes, 10);
    }
    assert(reachable_codes(144) == 86) by {
        reveal_with_fuel(reachable_codes, 10);
    }
    assert(reachable_codes(153) == 92) by {
        reveal_with_fuel(reachable_codes, 10);
    }
    assert(reachable_codes(162) == 96) by {
        reveal_with_fuel(reachable_codes, 10);
    }
    assert(reachable_codes(171) == 102) by {
        reveal_with_fuel(reachable_codes, 10);
    }
    assert(reachable_codes(180) == 108) by {
        reveal_with_fuel(reachable_codes, 10);
    }
    assert(reachable_codes(189) == 112) by {
        reveal_with_fuel(reachable_codes, 10);
    }
    assert(reachable_codes(198) == 118) by {
        reveal_with_fuel(reachable_codes, 10);
    }
    assert(reachable_codes(207) == 124) by {
        reveal_with_fuel(reachable_codes, 10);
    }
    assert(reachable_codes(216) == 128) by {
        reveal_with_fuel(reachable_codes, 10);
    }
    assert(reachable_codes(225) == 128) by {
        reveal_with_fuel(reachable_codes, 10);
    }
    assert(reachable_codes(234) == 128) by {
        reveal_with_fuel(reachable_codes, 10);
    }
    assert(reachable_codes(243) == 128) by {
        reveal_with_fuel(reachable_codes, 10);
    }
}

/// How many of the first `n` entries of table `t` hold an action.
pub open spec fn entries_below(t: Seq<Option<Action>>, n: nat) -> nat
    decreases n,
{
    if n == 0 {
        0
    } else {
        entries_below(t, (n - 1) as nat) + if t[n - 1] is Some {
            1nat
        } else {
            0nat
        }
    }
}

proof fn lemma_entries_match(t: Seq<Option<Action>>, n: nat)
    requires
        policy_wf(t),
        n <= N_CODES,
    ensures
        entries_below(t, n) == reachable_codes(n),
    decreases n,
{
    if n > 0 {
        lemma_entries_match(t, (n - 1) as nat);
    }
}

/// Every well-formed table, as random policies and offspring have, gives an
/// action to exactly the reachable states, and so holds exactly 128 actions.
pub proof fn lemma_domain_complete(t: Seq<Option<Action>>)
    requires
        policy_wf(t),
    ensures
        policy_domain(t) == reachable_states(),
        entries_below(t, N_CODES as nat) == 128,
{
    assert forall|s: State| #[trigger] policy_domain(t).contains(s) == reachable_states().contains(
        s,
    ) by {
        lemma_code_round_trip(s);
    }
    assert(policy_domain(t) =~= reachable_states());
    lemma_entries_match(t, N_CODES as nat);
    lemma_reachable_count();
}

} // verus!
