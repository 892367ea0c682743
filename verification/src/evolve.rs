//! Genetic search: a population seeded from the single-primitive
//! ranking, bred by sequential composition and a size-seeded
//! deterministic mutation. Fitness is an integer score in parts per
//! million: mostly per-cell accuracy, with a small simplicity bonus.

use vstd::prelude::*;
use crate::grid::Grid;
use crate::dsl::Prim;
use crate::enumerate::{bottom_up_enumerate, partial_match_score, pm_score_s};
use crate::compression::exs_wf;

verus! {

/// One member of the population.
#[derive(Debug)]
pub struct Individual {
    pub program: Prim,
    pub fitness: u64,
    pub generation: usize,
}

impl Clone for Individual {
    /// An exact copy of the individual.
    fn clone(&self) -> (r: Self)
        ensures
            r == *self,
    {
        Individual {
            program: self.program.clone(),
            fitness: self.fitness,
            generation: self.generation,
        }
    }
}

/// Node count capped at one million, for the simplicity bonus.
pub open spec fn size_capped_s(p: Prim) -> int {
    if crate::dsl::prim_size_s(p) > 1_000_000 {
        1_000_000
    } else {
        crate::dsl::prim_size_s(p) as int
    }
}

/// The fitness formula: 95% of the mean per-cell match score plus a
/// simplicity bonus that shrinks with the program's node count.
pub open spec fn fitness_ppm_s(p: Prim, exs: Seq<(Seq<Seq<u8>>, Seq<Seq<u8>>)>) -> int {
    let acc = pm_score_s(p, exs);
    let b0 = 5_000_000int / (100 + size_capped_s(p));
    let bonus = if b0 > 50_000 {
        50_000int
    } else {
        b0
    };
    acc / 100 * 95 + bonus
}

/// Fitness of a program — exactly `fitness_ppm_s`: 95% mean per-cell
/// accuracy plus a bonus that shrinks with program size; at most one
/// million.
pub fn eval_fitness(program: &Prim, examples: &Vec<(Grid, Grid)>) -> (f: u64)
    requires
        exs_wf(examples),
        examples@.len() < 0x1_0000_0000,
    ensures
        f <= 1_000_000,
        f == fitness_ppm_s(*program, crate::compression::exs_view(examples)),
{
    let acc = partial_match_score(program, examples);
    let size = program.size();
    let size_capped: u64 = if size > 1_000_000 {
        1_000_000
    } else {
        size as u64
    };
    assert(size_capped == size_capped_s(*program));
    let b0: u64 = 5_000_000 / (100 + size_capped);
    let bonus: u64 = if b0 > 50_000 {
        50_000
    } else {
        b0
    };
    acc / 100 * 95 + bonus
}

fn crossover(a: &Prim, b: &Prim) -> (r: Prim) {
    Prim::Compose(Box::new(a.clone()), Box::new(b.clone()))
}

fn mutate(p: &Prim) -> (r: Prim) {
    let prims = Prim::all_primitives();
    let size = p.size();
    let idx = (if size > 100_000 { 100_000 } else { size } * 7 + 13) % prims.len();
    match p {
        Prim::Compose(a, _) => Prim::Compose(Box::new((**a).clone()), Box::new(prims[idx].clone())),
        other => {
            if size < 3 {
                Prim::Compose(Box::new(other.clone()), Box::new(prims[idx].clone()))
            } else {
                prims[idx].clone()
            }
        },
    }
}

/// Every stored fitness is the true fitness of its own program.
pub open spec fn fitness_truthful(
    pop: Seq<Individual>,
    exs: Seq<(Seq<Seq<u8>>, Seq<Seq<u8>>)>,
) -> bool {
    forall|k: int|
        0 <= k < pop.len() ==> (#[trigger] pop[k]).fitness == fitness_ppm_s(pop[k].program, exs)
}

/// Sorts a population by fitness, best first; every entry of the
/// result is an entry of the input.
fn sort_population(pop: Vec<Individual>) -> (r: Vec<Individual>)
    requires
        forall|k: int| 0 <= k < pop@.len() ==> (#[trigger] pop@[k]).fitness <= 1_000_000,
    ensures
        r@.len() == pop@.len(),
        forall|p: int, q: int| 0 <= p < q < r@.len() ==> (#[trigger] r@[p]).fitness >= (
        #[trigger] r@[q]).fitness,
        forall|k: int| 0 <= k < r@.len() ==> (#[trigger] r@[k]).fitness <= 1_000_000,
        forall|k: int| 0 <= k < r@.len() ==> pop@.contains(#[trigger] r@[k]),
{
    let mut out: Vec<Individual> = Vec::new();
    let mut i: usize = 0;
    while i < pop.len()
        invariant
            0 <= i <= pop@.len(),
            out@.len() == i,
            forall|k: int| 0 <= k < pop@.len() ==> (#[trigger] pop@[k]).fitness <= 1_000_000,
            forall|p: int, q: int| 0 <= p < q < out@.len() ==> (#[trigger] out@[p]).fitness >= (
            #[trigger] out@[q]).fitness,
            forall|k: int| 0 <= k < out@.len() ==> (#[trigger] out@[k]).fitness <= 1_000_000,
            forall|k: int| 0 <= k < out@.len() ==> pop@.contains(#[trigger] out@[k]),
        decreases pop@.len() - i,
    {
        let ind = pop[i].clone();
        let score = ind.fitness;
        let mut pos: usize = 0;
        while pos < out.len()
            invariant_except_break
                0 <= pos <= out@.len(),
                forall|p: int, q: int| 0 <= p < q < out@.len() ==> (#[trigger] out@[p]).fitness
                    >= (#[trigger] out@[q]).fitness,
                forall|k: int| 0 <= k < out@.len() ==> (#[trigger] out@[k]).fitness
                    <= 1_000_000,
                forall|k: int| 0 <= k < pos ==> (#[trigger] out@[k]).fitness >= score,
            ensures
                0 <= pos <= out@.len(),
                forall|p: int, q: int| 0 <= p < q < out@.len() ==> (#[trigger] out@[p]).fitness
                    >= (#[trigger] out@[q]).fitness,
                forall|k: int| 0 <= k < out@.len() ==> (#[trigger] out@[k]).fitness
                    <= 1_000_000,
                forall|k: int| 0 <= k < pos ==> (#[trigger] out@[k]).fitness >= score,
                pos < out@.len() ==> out@[pos as int].fitness < score,
            decreases out@.len() - pos,
        {
            if out[pos].fitness < score {
                break;
            }
            pos += 1;
        }
        let ghost before = out@;
        out.insert(pos, ind);
        proof {
            assert forall|k: int| 0 <= k < out@.len() implies pop@.contains(
                #[trigger] out@[k],
            ) by {
                if k < pos {
                    assert(out@[k] == before[k]);
                    assert(pop@.contains(before[k]));
                } else if k == pos {
                    assert(out@[k] == pop@[i as int]);
                } else {
                    assert(out@[k] == before[k - 1]);
                    assert(pop@.contains(before[k - 1]));
                }
            }
        }
        assert forall|p: int, q: int| 0 <= p < q < out@.len() implies (
        #[trigger] out@[p]).fitness >= (#[trigger] out@[q]).fitness by {
            if p < pos && q < pos {
                assert(out@[p] == before[p] && out@[q] == before[q]);
            } else if p < pos && q == pos {
                assert(out@[p] == before[p]);
            } else if p < pos && q > pos {
                assert(out@[p] == before[p] && out@[q] == before[q - 1]);
            } else if p == pos && q > pos {
                assert(out@[q] == before[q - 1]);
            } else if p > pos && q > pos {
                assert(out@[p] == before[p - 1] && out@[q] == before[q - 1]);
            }
        }
        i += 1;
    }
    out
}

/// Evolves a population for a fixed budget and returns the fittest
/// individual found, if any. The cascade still verifies the winner
/// exactly before accepting it.
pub fn evolve(examples: &Vec<(Grid, Grid)>, population_size: usize, generations: usize) -> (r:
    Option<Individual>)
    requires
        exs_wf(examples),
        examples@.len() < 0x1_0000_0000,
    ensures
        r matches Some(ind) ==> ind.fitness <= 1_000_000,
        r matches Some(ind) ==> ind.fitness == fitness_ppm_s(
            ind.program,
            crate::compression::exs_view(examples),
        ),
        population_size > 0 ==> r is Some,
{
    let ghost exs = crate::compression::exs_view(examples);
    if population_size == 0 {
        return None;
    }
    let seeds = bottom_up_enumerate(examples, population_size / 2);
    let mut population: Vec<Individual> = Vec::new();
    let mut si: usize = 0;
    while si < seeds.len()
        invariant
            0 <= si <= seeds@.len(),
            exs_wf(examples),
            examples@.len() < 0x1_0000_0000,
            seeds@.len() <= population_size / 2,
            population@.len() <= si,
            exs == crate::compression::exs_view(examples),
            forall|k: int| 0 <= k < population@.len() ==> (#[trigger] population@[k]).fitness
                <= 1_000_000,
            fitness_truthful(population@, exs),
        decreases seeds@.len() - si,
    {
        let program = seeds[si].0.clone();
        let fitness = eval_fitness(&program, examples);
        population.push(Individual { program, fitness, generation: 0 });
        si += 1;
    }
    let catalog = Prim::all_primitives();
    while population.len() < population_size
        invariant
            exs_wf(examples),
            examples@.len() < 0x1_0000_0000,
            catalog@.len() > 0,
            population@.len() <= population_size,
            exs == crate::compression::exs_view(examples),
            forall|k: int| 0 <= k < population@.len() ==> (#[trigger] population@[k]).fitness
                <= 1_000_000,
            fitness_truthful(population@, exs),
        decreases population_size - population.len(),
    {
        let idx = population.len() % catalog.len();
        let program = catalog[idx].clone();
        let fitness = eval_fitness(&program, examples);
        population.push(Individual { program, fitness, generation: 0 });
    }
    assert(population@.len() == population_size);
    let mut gen: usize = 0;
    while gen < generations
        invariant
            exs_wf(examples),
            examples@.len() < 0x1_0000_0000,
            population@.len() == population_size,
            population_size > 0,
            exs == crate::compression::exs_view(examples),
            forall|k: int| 0 <= k < population@.len() ==> (#[trigger] population@[k]).fitness
                <= 1_000_000,
            fitness_truthful(population@, exs),
        decreases generations - gen,
    {
        let ghost unsorted = population@;
        let sorted = sort_population(population);
        population = sorted;
        proof {
            assert forall|k: int| 0 <= k < population@.len() implies (
            #[trigger] population@[k]).fitness == fitness_ppm_s(population@[k].program, exs) by {
                assert(unsorted.contains(population@[k]));
                let q0 = choose|q0: int|
                    0 <= q0 < unsorted.len() && unsorted[q0] == population@[k];
                assert(unsorted[q0].fitness == fitness_ppm_s(unsorted[q0].program, exs));
            }
        }
        if population[0].fitness >= 1_000_000 {
            let best = population[0].clone();
            return Some(best);
        }
        let elite_count = if population_size / 4 == 0 {
            1
        } else {
            population_size / 4
        };
        let mut next_gen: Vec<Individual> = Vec::new();
        let mut e: usize = 0;
        while e < elite_count && e < population.len()
            invariant
                0 <= e <= elite_count,
                elite_count <= population_size,
                next_gen@.len() == e,
                exs == crate::compression::exs_view(examples),
                forall|k: int| 0 <= k < next_gen@.len() ==> (#[trigger] next_gen@[k]).fitness
                    <= 1_000_000,
                forall|k: int| 0 <= k < population@.len() ==> (
                #[trigger] population@[k]).fitness <= 1_000_000,
                fitness_truthful(population@, exs),
                fitness_truthful(next_gen@, exs),
            decreases elite_count - e,
        {
            let ind = population[e].clone();
            next_gen.push(ind);
            e += 1;
        }
        while next_gen.len() < population_size
            invariant
                exs_wf(examples),
                examples@.len() < 0x1_0000_0000,
                population@.len() == population_size,
                population_size > 0,
                elite_count > 0,
                elite_count <= population_size,
                gen < generations,
                next_gen@.len() <= population_size,
                exs == crate::compression::exs_view(examples),
                forall|k: int| 0 <= k < next_gen@.len() ==> (#[trigger] next_gen@[k]).fitness
                    <= 1_000_000,
                forall|k: int| 0 <= k < population@.len() ==> (
                #[trigger] population@[k]).fitness <= 1_000_000,
                fitness_truthful(population@, exs),
                fitness_truthful(next_gen@, exs),
            decreases population_size - next_gen.len(),
        {
            let pa = next_gen.len() % elite_count;
            let pb = (next_gen.len() + 1) % elite_count;
            let child = crossover(&population[pa].program, &population[pb].program);
            let mutated = mutate(&child);
            let fitness = eval_fitness(&mutated, examples);
            next_gen.push(Individual { program: mutated, fitness, generation: gen + 1 });
        }
        population = next_gen;
        gen += 1;
    }
    let ghost unsorted = population@;
    let sorted = sort_population(population);
    if sorted.len() > 0 {
        let best = sorted[0].clone();
        proof {
            assert(unsorted.contains(sorted@[0]));
            let q0 = choose|q0: int| 0 <= q0 < unsorted.len() && unsorted[q0] == sorted@[0];
            assert(unsorted[q0].fitness == fitness_ppm_s(unsorted[q0].program, exs));
        }
        return Some(best);
    }
    None
}

} // verus!
