use vstd::prelude::*;

use crate::action::Action;
use crate::agent::Agent;
use crate::config::Config;
use crate::random::{get_random_move, Gen};
use crate::state::{lemma_code_round_trip, State};
use crate::world::{
    apply_move, create_random_world, get_random_location, get_state, pos, Grid, World,
};

verus! {

/// A trial in progress: the grid, the agent's location, the reward so far,
/// how many random moves were used, and whether the trial has ended.
pub struct Walk {
    pub grid: Grid,
    pub loc: (int, int),
    pub score: nat,
    pub used: nat,
    pub stopped: bool,
}

/// The action that table `t` gives in state `s`.
pub open spec fn table_action(t: Seq<Option<Action>>, s: State) -> Action {
    t[s.code() as int]->Some_0
}

/// A step ends its trial when its action is not `MoveRandom` and it neither
/// moves the agent nor earns a reward.
pub open spec fn ends_trial(a: Action, from: (int, int), to: (int, int), reward: nat) -> bool {
    a != Action::MoveRandom && to == from && reward == 0
}

/// One step of a trial under table `t`. `MoveRandom` takes the next of the
/// random moves `moves`.
pub open spec fn advance(t: Seq<Option<Action>>, w: Walk, moves: Seq<Action>) -> Walk {
    let a = table_action(t, w.grid.state_at(w.loc));
    let m = if a == Action::MoveRandom {
        moves[w.used as int]
    } else {
        a
    };
    let to = w.grid.next_location(w.loc, m);
    let r = w.grid.reward(w.loc, m);
    if ends_trial(a, w.loc, to, r) {
        Walk { stopped: true, ..w }
    } else {
        Walk {
            grid: w.grid.after(w.loc, m),
            loc: to,
            score: w.score + r,
            used: if a == Action::MoveRandom {
                w.used + 1
            } else {
                w.used
            },
            stopped: false,
        }
    }
}

/// The trial after `k` steps; a trial that has ended stays as it is.
pub open spec fn walk(t: Seq<Option<Action>>, start: Walk, k: nat, moves: Seq<Action>) -> Walk
    decreases k,
{
    if k == 0 {
        start
    } else {
        let w = walk(t, start, (k - 1) as nat, moves);
        if w.stopped {
            w
        } else {
            advance(t, w, moves)
        }
    }
}

/// A trial that has not begun.
pub open spec fn start_walk(g: Grid, l: (int, int)) -> Walk {
    Walk { grid: g, loc: l, score: 0, used: 0, stopped: false }
}

/// The reward that table `t` collects in `n_steps` steps from `l` on `g`,
/// with `moves` for its random moves.
pub open spec fn trial_score(
    t: Seq<Option<Action>>,
    g: Grid,
    l: (int, int),
    n_steps: nat,
    moves: Seq<Action>,
) -> nat {
    walk(t, start_walk(g, l), n_steps, moves).score
}

/// Only directional moves.
pub open spec fn all_directions(moves: Seq<Action>) -> bool {
    forall|i: int| 0 <= i < moves.len() ==> (#[trigger] moves[i]).is_direction()
}

/// Moves beyond those a walk has used do not change it.
pub proof fn lemma_walk_extend(
    t: Seq<Option<Action>>,
    start: Walk,
    k: nat,
    moves: Seq<Action>,
    ext: Seq<Action>,
)
    requires
        walk(t, start, k, moves).used <= moves.len(),
        moves.len() <= ext.len(),
        ext.subrange(0, moves.len() as int) == moves,
    ensures
        walk(t, start, k, ext) == walk(t, start, k, moves),
    decreases k,
{
    if k > 0 {
        let w = walk(t, start, (k - 1) as nat, moves);
        assert(w.used <= walk(t, start, k, moves).used);
        lemma_walk_extend(t, start, (k - 1) as nat, moves, ext);
        if !w.stopped && w.used < moves.len() {
            assert(ext[w.used as int] == ext.subrange(0, moves.len() as int)[w.used as int]);
        }
    }
}

/// A walk that has ended stays ended, with its reward.
pub proof fn lemma_walk_stays(
    t: Seq<Option<Action>>,
    start: Walk,
    j: nat,
    k: nat,
    moves: Seq<Action>,
)
    requires
        j <= k,
        walk(t, start, j, moves).stopped,
    ensures
        walk(t, start, k, moves) == walk(t, start, j, moves),
    decreases k,
{
    if k > j {
        lemma_walk_stays(t, start, j, (k - 1) as nat, moves);
    }
}

/// A step whose action is not `MoveRandom` and that neither moves the agent
/// nor earns a reward ends the trial: from then on the trial stays as it was
/// before that step. A `MoveRandom` step never ends the trial, whatever it
/// does.
pub proof fn lemma_early_termination(
    t: Seq<Option<Action>>,
    start: Walk,
    k: nat,
    moves: Seq<Action>,
)
    requires
        !walk(t, start, k, moves).stopped,
    ensures
        ({
            let w = walk(t, start, k, moves);
            let a = table_action(t, w.grid.state_at(w.loc));
            &&& (a != Action::MoveRandom && w.grid.next_location(w.loc, a) == w.loc
                && w.grid.reward(w.loc, a) == 0) ==> forall|j: nat|
                j > k ==> #[trigger] walk(t, start, j, moves) == (Walk { stopped: true, ..w })
            &&& a == Action::MoveRandom ==> !walk(t, start, k + 1, moves).stopped
        }),
{
    let w = walk(t, start, k, moves);
    let a = table_action(t, w.grid.state_at(w.loc));
    if a != Action::MoveRandom && w.grid.next_location(w.loc, a) == w.loc && w.grid.reward(w.loc, a)
        == 0 {
        assert forall|j: nat| j > k implies #[trigger] walk(t, start, j, moves) == (Walk {
            stopped: true,
            ..w
        }) by {
            assert(walk(t, start, k + 1, moves) == (Walk { stopped: true, ..w }));
            lemma_walk_stays(t, start, k + 1, j, moves);
        }
    }
}

/// Resolves `MoveRandom` into a uniformly drawn directional move; any other
/// action is kept.
pub fn resolve_action(rng: &mut Gen, action: Action) -> (m: Action)
    ensures
        m != Action::MoveRandom,
        action != Action::MoveRandom ==> m == action && *final(rng) == *old(rng),
        action == Action::MoveRandom ==> m.is_direction(),
{
    if action == Action::MoveRandom {
        get_random_move(rng)
    } else {
        action
    }
}

/// Carries out `action` at `location`, `MoveRandom` first resolved into a
/// random directional move: the new location and the reward earned.
pub fn update_world(
    rng: &mut Gen,
    world: &mut World,
    location: (usize, usize),
    action: Action,
) -> (r: ((usize, usize), u32))
    requires
        old(world)@.wf(),
        old(world)@.interior(pos(location)),
    ensures
        exists|m: Action|
            (if action == Action::MoveRandom {
                m.is_direction()
            } else {
                m == action
            }) && pos(r.0) == old(world)@.next_location(pos(location), m) && r.1 == old(
                world,
            )@.reward(pos(location), m) && final(world)@ == #[trigger] old(world)@.after(
                pos(location),
                m,
            ),
        final(world)@.wf(),
        final(world)@.interior(pos(r.0)),
        action != Action::MoveRandom ==> *final(rng) == *old(rng),
{
    let m = resolve_action(rng, action);
    let r = apply_move(world, location, m);
    r
}

/// Runs one trial of `agent` on `world` from `start`, for at most `n_steps`
/// steps: the reward collected. The trial ends early at a step that is not
/// `MoveRandom` and neither moves the agent nor earns a reward.
pub fn run_trial(
    rng: &mut Gen,
    world: World,
    start: (usize, usize),
    agent: &Agent,
    n_steps: u32,
) -> (score: u32)
    requires
        world@.wf(),
        world@.interior(pos(start)),
        agent.wf(),
    ensures
        score <= n_steps,
        exists|moves: Seq<Action>|
            all_directions(moves) && walk(
                agent.policy@,
                start_walk(world@, pos(start)),
                n_steps as nat,
                moves,
            ).used == moves.len() && score == #[trigger] trial_score(
                agent.policy@,
                world@,
                pos(start),
                n_steps as nat,
                moves,
            ),
{
    let ghost t = agent.policy@;
    let ghost g0 = world@;
    let ghost first = start_walk(world@, pos(start));
    let ghost mut moves: Seq<Action> = Seq::empty();
    let mut world = world;
    let mut location = start;
    let mut score: u32 = 0;
    let mut step: u32 = 0;
    let mut stopped = false;
    while step < n_steps && !stopped
        invariant
            agent.wf(),
            t == agent.policy@,
            world@.wf(),
            world@.interior(pos(location)),
            step <= n_steps,
            score <= step,
            all_directions(moves),
            walk(t, first, step as nat, moves) == (Walk {
                grid: world@,
                loc: pos(location),
                score: score as nat,
                used: moves.len(),
                stopped,
            }),
        decreases n_steps - step, if stopped {
            0int
        } else {
            1int
        },
    {
        let ghost w = world@;
        let state = get_state(&world, location);
        proof {
            lemma_code_round_trip(state);
        }
        let action = match agent.get_action(&state) {
            Some(a) => a,
            None => {
                proof {
                    assert(false);
                }
                Action::PickUp
            },
        };
        let resolved = resolve_action(rng, action);
        proof {
            if action == Action::MoveRandom {
                let ext = moves.push(resolved);
                assert(ext.subrange(0, moves.len() as int) =~= moves);
                lemma_walk_extend(t, first, step as nat, moves, ext);
                moves = ext;
            }
        }
        let (new_location, reward) = apply_move(&mut world, location, resolved);
        if action != Action::MoveRandom && new_location.0 == location.0 && new_location.1
            == location.1 && reward == 0 {
            stopped = true;
            step = step + 1;
        } else {
            location = new_location;
            score = score + reward;
            step = step + 1;
        }
    }
    proof {
        if stopped {
            lemma_walk_stays(t, first, step as nat, n_steps as nat, moves);
        }
        assert(score == trial_score(t, g0, pos(start), n_steps as nat, moves));
        assert(walk(t, first, n_steps as nat, moves).used == moves.len());
    }
    score
}

/// What one trial of an evaluation started from: its grid, its start
/// location and the random moves it used.
pub struct TrialRecord {
    pub grid: Grid,
    pub start: (int, int),
    pub moves: Seq<Action>,
}

/// A trial of table `t` that the configuration allows: a well-formed grid of
/// its size with its number of goals, an interior start location, and one
/// directional move for each `MoveRandom` step that the trial takes.
pub open spec fn valid_trial(t: Seq<Option<Action>>, r: TrialRecord, config: Config) -> bool {
    &&& r.grid.wf()
    &&& r.grid.rows == config.height
    &&& r.grid.cols == config.width
    &&& r.grid.goals() == config.n_goals
    &&& r.grid.interior(r.start)
    &&& all_directions(r.moves)
    &&& walk(t, start_walk(r.grid, r.start), config.n_steps as nat, r.moves).used == r.moves.len()
}

/// The reward that table `t` collects over the trials `trials`.
pub open spec fn total_score(t: Seq<Option<Action>>, trials: Seq<TrialRecord>, n_steps: nat) -> nat
    decreases trials.len(),
{
    if trials.len() == 0 {
        0
    } else {
        let r = trials.last();
        total_score(t, trials.drop_last(), n_steps) + trial_score(
            t,
            r.grid,
            r.start,
            n_steps,
            r.moves,
        )
    }
}

/// `score` is a total that an evaluation of table `t` can return: the
/// reward over `config.n_trials` trials that the configuration allows.
pub open spec fn evaluation_outcome(t: Seq<Option<Action>>, score: nat, config: Config) -> bool {
    exists|trials: Seq<TrialRecord>|
        trials.len() == config.n_trials && (forall|i: int|
            0 <= i < trials.len() ==> valid_trial(t, #[trigger] trials[i], config)) && score
            == #[trigger] total_score(t, trials, config.n_steps as nat)
}

/// Evaluates `agent` over `config.n_trials` trials, each on a newly drawn
/// grid from a newly drawn start location: the total reward. The fitness is
/// this total divided by the number of trials.
pub fn evaluate_agent(rng: &mut Gen, agent: &Agent, config: &Config) -> (total: u32)
    requires
        agent.wf(),
        config.wf(),
    ensures
        total <= config.n_trials * config.n_steps,
        evaluation_outcome(agent.policy@, total as nat, *config),
{
    let ghost mut trials: Seq<TrialRecord> = Seq::empty();
    let mut total: u32 = 0;
    let mut trial: u32 = 0;
    while trial < config.n_trials
        invariant
            agent.wf(),
            config.wf(),
            trial <= config.n_trials,
            total <= trial * config.n_steps,
            trials.len() == trial,
            forall|i: int| 0 <= i < trials.len() ==> valid_trial(agent.policy@, #[trigger] trials[i], *config),
            total == total_score(agent.policy@, trials, config.n_steps as nat),
        decreases config.n_trials - trial,
    {
        let world = create_random_world(rng, config.height, config.width, config.n_goals);
        let start = get_random_location(rng, config.height, config.width);
        let ghost g = world@;
        let score = run_trial(rng, world, start, agent, config.n_steps);
        proof {
            let moves = choose|moves: Seq<Action>|
                all_directions(moves) && walk(
                    agent.policy@,
                    start_walk(g, pos(start)),
                    config.n_steps as nat,
                    moves,
                ).used == moves.len() && score == #[trigger] trial_score(
                    agent.policy@,
                    g,
                    pos(start),
                    config.n_steps as nat,
                    moves,
                );
            let rec = TrialRecord { grid: g, start: pos(start), moves };
            let next = trials.push(rec);
            assert(next.drop_last() =~= trials);
            trials = next;
            let k = trial as int;
            let n = config.n_steps as int;
            let m = config.n_trials as int;
            assert((k + 1) * n <= m * n) by (nonlinear_arith)
                requires
                    k + 1 <= m,
                    n >= 0,
            ;
            assert((k + 1) * n == k * n + n) by (nonlinear_arith);
        }
        total = total + score;
        trial = trial + 1;
    }
    assert(total_score(agent.policy@, trials, config.n_steps as nat) == total);
    total
}

} // verus!
