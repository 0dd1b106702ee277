use vstd::prelude::*;

use crate::agent::{create_random_agent, crossover_agents, offspring_policy, Agent, CrossoverDraws};
use crate::config::Config;
use crate::random::{draw_between, Gen};
use crate::rollout::{evaluate_agent, evaluation_outcome};

verus! {

/// Every policy of `p` is well formed.
pub open spec fn all_wf(p: Seq<Agent>) -> bool {
    forall|k: int| 0 <= k < p.len() ==> (#[trigger] p[k]).wf()
}

/// The scores of `p` do not increase from one policy to the next.
pub open spec fn sorted_by_score(p: Seq<Agent>) -> bool {
    forall|a: int, b: int| 0 <= a < b < p.len() ==> p[a].score >= p[b].score
}

/// A population of `config.population_size` random policies with the ids
/// `*next_id`, `*next_id + 1`, ...
pub fn create_population(rng: &mut Gen, config: &Config, next_id: &mut i32) -> (population: Vec<
    Agent,
>)
    requires
        config.wf(),
        *old(next_id) + config.population_size <= i32::MAX,
    ensures
        population@.len() == config.population_size,
        all_wf(population@),
        forall|k: int|
            0 <= k < population@.len() ==> #[trigger] population@[k].id == *old(next_id) + k,
        *final(next_id) == *old(next_id) + config.population_size,
{
    let ghost first = *next_id;
    let mut population: Vec<Agent> = Vec::new();
    let mut k: usize = 0;
    while k < config.population_size
        invariant
            k <= config.population_size,
            first + config.population_size <= i32::MAX,
            *next_id == first + k,
            population@.len() == k,
            all_wf(population@),
            forall|j: int| 0 <= j < k ==> #[trigger] population@[j].id == first + j,
        decreases config.population_size - k,
    {
        let agent = create_random_agent(rng, *next_id);
        population.push(agent);
        *next_id = *next_id + 1;
        k = k + 1;
    }
    population
}

/// `p` is `q` rearranged by `perm` (`p[k] == q[perm[k]]`, no position of `q`
/// taken twice), and policies of equal score stand in `p` in their order in
/// `q`.
pub open spec fn stable_rearrangement(p: Seq<Agent>, q: Seq<Agent>, perm: Seq<int>) -> bool {
    &&& perm.len() == p.len()
    &&& p.len() == q.len()
    &&& forall|k: int| 0 <= k < p.len() ==> 0 <= #[trigger] perm[k] < q.len() && p[k] == q[perm[k]]
    &&& forall|a: int, b: int| 0 <= a < b < p.len() ==> #[trigger] perm[a] != #[trigger] perm[b]
    &&& forall|a: int, b: int|
        0 <= a < b < p.len() && #[trigger] p[a].score == #[trigger] p[b].score ==> perm[a]
            < perm[b]
}

/// Sorts by descending score; policies of equal score keep their order.
pub fn sort_by_score(population: &mut Vec<Agent>)
    ensures
        final(population)@.len() == old(population)@.len(),
        sorted_by_score(final(population)@),
        final(population)@.to_multiset() == old(population)@.to_multiset(),
        exists|perm: Seq<int>| stable_rearrangement(final(population)@, old(population)@, perm),
{
    let ghost orig = population@;
    let n = population.len();
    let mut i: usize = 1;
    let ghost mut perm: Seq<int> = Seq::new(n as nat, |k: int| k);
    if n == 0 {
        assert(stable_rearrangement(population@, orig, perm));
        return ;
    }
    while i < n
        invariant
            1 <= i <= n,
            population@.len() == n,
            orig.len() == n,
            sorted_by_score(population@.subrange(0, i as int)),
            population@.to_multiset() == orig.to_multiset(),
            perm.len() == n,
            forall|k: int|
                0 <= k < n ==> 0 <= #[trigger] perm[k] < n && population@[k] == orig[perm[k]],
            forall|k: int| i <= k < n ==> #[trigger] perm[k] == k,
            forall|k: int| 0 <= k < i ==> #[trigger] perm[k] < i,
            forall|a: int, b: int| 0 <= a < b < i ==> #[trigger] perm[a] != #[trigger] perm[b],
            forall|a: int, b: int|
                0 <= a < b < i && #[trigger] population@[a].score == #[trigger] population@[b].score
                    ==> perm[a] < perm[b],
        decreases n - i,
    {
        let ghost before = population@;
        let x = population.remove(i);
        let mut j: usize = i;
        while j > 0 && population[j - 1].score < x.score
            invariant
                j <= i,
                i < n,
                before.len() == n,
                population@ == before.remove(i as int),
                forall|k: int| j <= k < i ==> #[trigger] population@[k].score < x.score,
            decreases j,
        {
            j = j - 1;
        }
        population.insert(j, x);
        proof {
            let removed = before.remove(i as int);
            assert(x == before[i as int]);
            lemma_remove_insert_multiset(before, i as int, j as int);
            let old_perm = perm;
            let new_perm = old_perm.remove(i as int).insert(j as int, i as int);
            let pop = population@;
            assert forall|k: int| 0 <= k < n implies 0 <= #[trigger] new_perm[k] < n && pop[k]
                == orig[new_perm[k]] by {
                if k < j {
                    assert(new_perm[k] == old_perm[k] && pop[k] == before[k]);
                } else if k == j {
                    assert(new_perm[k] == i && pop[k] == x && x == orig[old_perm[i as int]]);
                } else if k <= i {
                    assert(new_perm[k] == old_perm[k - 1] && pop[k] == before[k - 1]);
                } else {
                    assert(new_perm[k] == old_perm[k] && pop[k] == before[k]);
                }
            }
            assert forall|k: int| i + 1 <= k < n implies #[trigger] new_perm[k] == k by {
                assert(new_perm[k] == old_perm[k]);
            }
            assert forall|k: int| 0 <= k < i + 1 implies #[trigger] new_perm[k] < i + 1 by {
                if k < j {
                    assert(new_perm[k] == old_perm[k]);
                } else if j < k {
                    assert(new_perm[k] == old_perm[k - 1]);
                }
            }
            assert forall|a: int, b: int| 0 <= a < b < i + 1 implies #[trigger] new_perm[a]
                != #[trigger] new_perm[b] by {
                let oa = if a < j {
                    a
                } else {
                    a - 1
                };
                let ob = if b < j {
                    b
                } else {
                    b - 1
                };
                if a != j && b != j {
                    assert(new_perm[a] == old_perm[oa] && new_perm[b] == old_perm[ob]);
                    assert(old_perm[oa] != old_perm[ob]);
                } else if a == j {
                    assert(new_perm[b] == old_perm[ob]);
                    assert(old_perm[ob] < i);
                } else {
                    assert(new_perm[a] == old_perm[oa]);
                    assert(old_perm[oa] < i);
                }
            }
            assert forall|a: int, b: int|
                0 <= a < b < i + 1 && #[trigger] pop[a].score == #[trigger] pop[b].score implies
                new_perm[a] < new_perm[b] by {
                let oa = if a < j {
                    a
                } else {
                    a - 1
                };
                let ob = if b < j {
                    b
                } else {
                    b - 1
                };
                if a != j && b != j {
                    assert(new_perm[a] == old_perm[oa] && new_perm[b] == old_perm[ob]);
                    assert(pop[a] == before[oa] && pop[b] == before[ob]);
                } else if a == j {
                    assert(pop[b] == removed[b - 1]);
                    assert(removed[b - 1].score < x.score);
                } else {
                    assert(new_perm[a] == old_perm[oa]);
                    assert(old_perm[oa] < i);
                }
            }
            perm = new_perm;
            let old_prefix = before.subrange(0, i as int);
            let sub = population@.subrange(0, i + 1);
            assert forall|a: int, b: int| 0 <= a < b < i + 1 implies #[trigger] sub[a].score
                >= #[trigger] sub[b].score by {
                if a < j && b < j {
                    assert(old_prefix[a].score >= old_prefix[b].score);
                } else if a < j && b == j {
                    if a < j - 1 {
                        assert(old_prefix[a].score >= old_prefix[j - 1].score);
                    }
                    assert(removed[j - 1] == old_prefix[j - 1]);
                } else if a < j {
                    assert(old_prefix[a].score >= old_prefix[b - 1].score);
                } else if a == j {
                    assert(removed[b - 1].score < x.score);
                } else {
                    assert(old_prefix[a - 1].score >= old_prefix[b - 1].score);
                }
            }
        }
        i = i + 1;
    }
    assert(population@.subrange(0, n as int) =~= population@);
    assert(stable_rearrangement(population@, orig, perm));
}

/// Taking the element at `i` out and putting it back at `j` keeps the
/// multiset of elements.
proof fn lemma_remove_insert_multiset(s: Seq<Agent>, i: int, j: int)
    requires
        0 <= i < s.len(),
        0 <= j <= i,
    ensures
        s.remove(i).insert(j, s[i]).to_multiset() == s.to_multiset(),
{
    broadcast use vstd::multiset::group_multiset_axioms;

    vstd::seq_lib::to_multiset_remove(s, i);
    vstd::seq_lib::to_multiset_insert(s.remove(i), j, s[i]);
    vstd::seq_lib::to_multiset_contains(s, s[i]);
    assert(s.contains(s[i]));
    assert(s.to_multiset().remove(s[i]).insert(s[i]) =~= s.to_multiset());
}

/// `evaluated` is `p` with each policy scored by one evaluation under
/// `config`.
pub open spec fn scored_from(evaluated: Seq<Agent>, p: Seq<Agent>, config: Config) -> bool {
    &&& evaluated.len() == p.len()
    &&& forall|k: int|
        0 <= k < p.len() ==> (#[trigger] evaluated[k]).id == p[k].id && evaluated[k].policy
            == p[k].policy && evaluation_outcome(p[k].policy@, evaluated[k].score as nat, config)
}

/// `ranked` is `evaluated` sorted by descending score, equal scores in
/// their order in `evaluated`.
pub open spec fn ranked_from(ranked: Seq<Agent>, evaluated: Seq<Agent>) -> bool {
    &&& sorted_by_score(ranked)
    &&& exists|perm: Seq<int>| stable_rearrangement(ranked, evaluated, perm)
}

/// `child` is an offspring of two of `parents`, possibly the same one.
pub open spec fn offspring_of(child: Agent, parents: Seq<Agent>, threshold: u32) -> bool {
    exists|a: int, b: int, d: CrossoverDraws|
        0 <= a < parents.len() && 0 <= b < parents.len() && d.valid() && child.policy@
            == #[trigger] offspring_policy(parents[a].policy@, parents[b].policy@, d, threshold)
}

/// Scores every policy by one evaluation, in population order.
pub fn evaluate_population(rng: &mut Gen, population: &mut Vec<Agent>, config: &Config)
    requires
        config.wf(),
        all_wf(old(population)@),
    ensures
        final(population)@.len() == old(population)@.len(),
        all_wf(final(population)@),
        scored_from(final(population)@, old(population)@, *config),
        forall|k: int|
            0 <= k < old(population)@.len() ==> (#[trigger] final(population)@[k]).score
                <= config.n_trials * config.n_steps,
{
    let ghost start = population@;
    let mut evaluated: Vec<Agent> = Vec::new();
    while population.len() > 0
        invariant
            config.wf(),
            evaluated@.len() + population@.len() == start.len(),
            population@ == start.subrange(evaluated@.len() as int, start.len() as int),
            all_wf(start),
            all_wf(evaluated@),
            forall|k: int|
                0 <= k < evaluated@.len() ==> (#[trigger] evaluated@[k]).id == start[k].id
                    && evaluated@[k].policy == start[k].policy && evaluated@[k].score
                    <= config.n_trials * config.n_steps && evaluation_outcome(
                    start[k].policy@,
                    evaluated@[k].score as nat,
                    *config,
                ),
        decreases population@.len(),
    {
        let mut agent = population.remove(0);
        assert(agent == start[evaluated@.len() as int]);
        agent.score = evaluate_agent(rng, &agent, config);
        evaluated.push(agent);
        assert(population@ =~= start.subrange(evaluated@.len() as int, start.len() as int));
    }
    *population = evaluated;
}

/// One generation: evaluate every policy, keep the `config.selection_size`
/// best (stable in score order), then refill the population with offspring
/// of two survivors each, drawn uniformly with replacement. Returns the id of
/// the generation's best policy, which stands first.
pub fn next_generation(
    rng: &mut Gen,
    population: &mut Vec<Agent>,
    config: &Config,
    next_id: &mut i32,
) -> (best_id: i32)
    requires
        config.wf(),
        old(population)@.len() == config.population_size,
        all_wf(old(population)@),
        *old(next_id) + config.population_size <= i32::MAX,
    ensures
        final(population)@.len() == config.population_size,
        all_wf(final(population)@),
        best_id == final(population)@[0].id,
        forall|k: int|
            0 <= k < config.selection_size ==> (#[trigger] final(population)@[k]).score
                <= config.n_trials * config.n_steps,
        sorted_by_score(final(population)@.subrange(0, config.selection_size as int)),
        exists|evaluated: Seq<Agent>, ranked: Seq<Agent>|
            scored_from(evaluated, old(population)@, *config) && #[trigger] ranked_from(
                ranked,
                evaluated,
            ) && final(population)@.subrange(0, config.selection_size as int) == ranked.subrange(
                0,
                config.selection_size as int,
            ),
        forall|k: int|
            config.selection_size <= k < config.population_size ==> offspring_of(
                #[trigger] final(population)@[k],
                final(population)@.subrange(0, config.selection_size as int),
                config.mutation_threshold,
            ),
        forall|k: int|
            0 <= k < config.selection_size ==> exists|j: int|
                0 <= j < old(population)@.len() && (#[trigger] final(population)@[k]).id == old(population)@[j].id && final(population)@[k].policy == old(population)@[j].policy,
        forall|k: int|
            config.selection_size <= k < config.population_size ==> (#[trigger] final(population)@[k]).id == *old(next_id) + (k - config.selection_size) && final(population)@[k].score
                == 0,
        *final(next_id) == *old(next_id) + (config.population_size - config.selection_size),
{
    let ghost start = population@;
    evaluate_population(rng, population, config);
    let ghost evaluated = population@;
    sort_by_score(population);
    let ghost ranked = population@;
    assert(ranked_from(ranked, evaluated));
    assert forall|k: int| 0 <= k < ranked.len() implies (#[trigger] ranked[k]).score
        <= config.n_trials * config.n_steps by {
        let perm = choose|perm: Seq<int>| stable_rearrangement(ranked, evaluated, perm);
        assert(ranked[k] == evaluated[perm[k]]);
    }
    proof {
        broadcast use vstd::seq_lib::group_to_multiset_ensures;

        assert forall|k: int| 0 <= k < population@.len() implies exists|j: int|
            0 <= j < start.len() && (#[trigger] population@[k]).id == start[j].id
                && population@[k].policy == start[j].policy by {
            assert(population@.to_multiset().count(population@[k]) > 0);
            assert(evaluated.contains(population@[k]));
            let j = choose|j: int| 0 <= j < evaluated.len() && evaluated[j] == population@[k];
            assert(evaluated[j].id == start[j].id);
        }
        assert forall|k: int| 0 <= k < population@.len() implies (#[trigger] population@[k]).wf() by {
            let j = choose|j: int|
                0 <= j < start.len() && population@[k].id == start[j].id
                    && population@[k].policy == start[j].policy;
            assert(start[j].wf());
        }
    }
    population.truncate(config.selection_size);
    let best_id = population[0].id;
    let ghost survivors = population@;
    let ghost first_child = *next_id;
    while population.len() < config.population_size
        invariant
            config.wf(),
            config.selection_size <= population@.len() <= config.population_size,
            population@.subrange(0, config.selection_size as int) == survivors,
            survivors.len() == config.selection_size,
            forall|k: int|
                0 <= k < config.selection_size ==> (#[trigger] survivors[k]).score
                    <= config.n_trials * config.n_steps,
            all_wf(population@),
            *next_id == first_child + (population@.len() - config.selection_size),
            first_child + config.population_size <= i32::MAX,
            forall|k: int|
                config.selection_size <= k < population@.len() ==> (#[trigger] population@[k]).id
                    == first_child + (k - config.selection_size) && population@[k].score == 0
                    && offspring_of(population@[k], survivors, config.mutation_threshold),
        decreases config.population_size - population@.len(),
    {
        let a = draw_between(rng, 0, config.selection_size - 1);
        let b = draw_between(rng, 0, config.selection_size - 1);
        assert(population@[a as int] == survivors[a as int]);
        assert(population@[b as int] == survivors[b as int]);
        let child = crossover_agents(
            rng,
            &population[a],
            &population[b],
            *next_id,
            config.mutation_threshold,
        );
        let ghost prev = population@;
        proof {
            let d = choose|d: CrossoverDraws|
                d.valid() && child.policy@ == #[trigger] offspring_policy(
                    survivors[a as int].policy@,
                    survivors[b as int].policy@,
                    d,
                    config.mutation_threshold,
                );
            assert(offspring_policy(
                survivors[a as int].policy@,
                survivors[b as int].policy@,
                d,
                config.mutation_threshold,
            ) == child.policy@);
            assert(offspring_of(child, survivors, config.mutation_threshold));
        }
        population.push(child);
        assert(population@.subrange(0, config.selection_size as int) =~= prev.subrange(
            0,
            config.selection_size as int,
        ));
        *next_id = *next_id + 1;
    }
    proof {
        assert forall|k: int| 0 <= k < config.selection_size implies exists|j: int|
            0 <= j < start.len() && (#[trigger] population@[k]).id == start[j].id
                && population@[k].policy == start[j].policy by {
            assert(population@[k] == survivors[k]);
        }
        assert(population@.subrange(0, config.selection_size as int) == survivors);
        assert(survivors =~= ranked.subrange(0, config.selection_size as int));
        assert(ranked_from(ranked, evaluated));
        assert forall|k: int| 0 <= k < config.selection_size implies (#[trigger] population@[k]).score
            <= config.n_trials * config.n_steps by {
            assert(population@[k] == survivors[k]);
        }
    }
    best_id
}

/// Runs `config.n_generations` generations on a new population. Returns the
/// final population and, per generation, the id and the score of its best
/// policy.
pub fn evolve(rng: &mut Gen, config: &Config) -> (r: (Vec<Agent>, Vec<(i32, u32)>))
    requires
        config.wf(),
        config.population_size * (config.n_generations + 1) <= i32::MAX,
    ensures
        r.0@.len() == config.population_size,
        all_wf(r.0@),
        r.1@.len() == config.n_generations,
        forall|g: int| 0 <= g < r.1@.len() ==> (#[trigger] r.1@[g]).1 <= config.n_trials * config.n_steps,
        config.n_generations > 0 ==> r.1@.last().0 == r.0@[0].id && r.1@.last().1 == r.0@[0].score,
{
    let mut next_id: i32 = 0;
    proof {
        let p = config.population_size as int;
        let n = config.n_generations as int;
        assert(p <= p * (n + 1)) by (nonlinear_arith)
            requires
                n >= 0,
                p >= 0,
        ;
    }
    let mut population = create_population(rng, config, &mut next_id);
    let mut history: Vec<(i32, u32)> = Vec::new();
    let mut generation: u32 = 0;
    while generation < config.n_generations
        invariant
            config.wf(),
            config.population_size * (config.n_generations + 1) <= i32::MAX,
            generation <= config.n_generations,
            population@.len() == config.population_size,
            all_wf(population@),
            history@.len() == generation,
            forall|g: int|
                0 <= g < history@.len() ==> (#[trigger] history@[g]).1 <= config.n_trials
                    * config.n_steps,
            0 <= next_id <= config.population_size * (generation + 1),
            generation > 0 ==> history@.last().0 == population@[0].id && history@.last().1
                == population@[0].score,
        decreases config.n_generations - generation,
    {
        proof {
            let p = config.population_size as int;
            let g = generation as int;
            let n = config.n_generations as int;
            assert(p * (g + 1) + p <= p * (n + 1)) by (nonlinear_arith)
                requires
                    g + 1 <= n,
                    p >= 0,
            ;
        }
        let best_id = next_generation(rng, &mut population, config, &mut next_id);
        history.push((best_id, population[0].score));
        proof {
            let p = config.population_size as int;
            let g = generation as int;
            assert(p * (g + 1) + p == p * (g + 2)) by (nonlinear_arith);
        }
        generation = generation + 1;
    }
    (population, history)
}

/// Evaluates once more the policy with id `best_id`: `None` when the
/// population holds no such policy.
pub fn final_evaluation(rng: &mut Gen, population: &Vec<Agent>, best_id: i32, config: &Config) -> (r:
    Option<u32>)
    requires
        config.wf(),
        all_wf(population@),
    ensures
        r is Some <==> exists|k: int| 0 <= k < population@.len() && (#[trigger] population@[k]).id
            == best_id,
        r is Some ==> r->Some_0 <= config.n_trials * config.n_steps,
        r is Some ==> exists|k: int|
            0 <= k < population@.len() && (#[trigger] population@[k]).id == best_id
                && evaluation_outcome(population@[k].policy@, r->Some_0 as nat, *config),
{
    let mut k: usize = 0;
    while k < population.len()
        invariant
            k <= population@.len(),
            all_wf(population@),
            config.wf(),
            forall|j: int| 0 <= j < k ==> (#[trigger] population@[j]).id != best_id,
        decreases population@.len() - k,
    {
        if population[k].id == best_id {
            let score = evaluate_agent(rng, &population[k], config);
            return Some(score);
        }
        k = k + 1;
    }
    None
}

} // verus!
