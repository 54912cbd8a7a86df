//! The population engine: fitness evaluation, roulette-wheel selection and
//! generation replacement over a user-supplied genome type.
//!
//! Fitness is a non-negative integer. The weight of genome `i` is the exact
//! ratio `scores[i] / total`, where `total` is the sum of all scores, so the
//! weights always form a discrete probability distribution.
use crate::random::draw_below;
use vstd::prelude::*;
use vstd::set_lib::{lemma_int_range, set_int_range};

verus! {

/// Sum of all entries of `s`.
pub open spec fn sum(s: Seq<u64>) -> int
    decreases s.len(),
{
    if s.len() == 0 {
        0
    } else {
        sum(s.drop_last()) + s.last()
    }
}

/// Sum of the first `k` entries of `s`.
pub open spec fn prefix_sum(s: Seq<u64>, k: int) -> int {
    sum(s.subrange(0, k))
}

/// `i` is a valid outcome of a roulette-wheel draw `r` over `s`: for a draw
/// below the total, `i` is the slot whose interval
/// `[prefix_sum(i), prefix_sum(i + 1))` holds `r`; otherwise the last slot.
pub open spec fn selects(s: Seq<u64>, r: int, i: int) -> bool {
    &&& 0 <= i < s.len()
    &&& r < sum(s) ==> prefix_sum(s, i) <= r < prefix_sum(s, i + 1)
    &&& r >= sum(s) ==> i == s.len() - 1
}

/// `i` is the first index holding the largest score of `s`.
pub open spec fn is_first_max(s: Seq<u64>, i: int) -> bool {
    &&& 0 <= i < s.len()
    &&& forall|j: int| 0 <= j < s.len() ==> s[j] <= s[i]
    &&& forall|j: int| 0 <= j < i ==> s[j] < s[i]
}

/// Why an evaluation step yields no probability distribution.
#[derive(Clone, Copy, Debug, PartialEq, Eq, Structural)]
pub enum LiveError {
    /// The population holds no genome.
    EmptyPopulation,
    /// Every fitness is zero, so no genome can be given a weight.
    ZeroFitness,
    /// The total fitness does not fit in a `u64`.
    FitnessOverflow,
}

/// The error that evaluating scores `s` yields, if any.
pub open spec fn live_error(s: Seq<u64>) -> Option<LiveError> {
    if s.len() == 0 {
        Some(LiveError::EmptyPopulation)
    } else if sum(s) == 0 {
        Some(LiveError::ZeroFitness)
    } else if sum(s) > u64::MAX {
        Some(LiveError::FitnessOverflow)
    } else {
        None
    }
}

/// What evaluating scores `s` may return: the error when there is one, else
/// the first fittest index and the total fitness.
pub open spec fn assessed(s: Seq<u64>, r: Result<(usize, u64), LiveError>) -> bool {
    match live_error(s) {
        Some(e) => r == Err::<(usize, u64), LiveError>(e),
        None => r is Ok && is_first_max(s, r->Ok_0.0 as int) && r->Ok_0.1 == sum(s),
    }
}

proof fn lemma_prefix_step(s: Seq<u64>, k: int)
    requires
        0 <= k < s.len(),
    ensures
        prefix_sum(s, k + 1) == prefix_sum(s, k) + s[k],
{
    assert(s.subrange(0, k + 1).drop_last() =~= s.subrange(0, k));
}

proof fn lemma_prefix_full(s: Seq<u64>)
    ensures
        prefix_sum(s, s.len() as int) == sum(s),
{
    assert(s.subrange(0, s.len() as int) =~= s);
}

/// Prefix sums never decrease.
proof fn lemma_prefix_monotone(s: Seq<u64>, j: int, k: int)
    requires
        0 <= j <= k <= s.len(),
    ensures
        prefix_sum(s, j) <= prefix_sum(s, k),
    decreases k - j,
{
    if j < k {
        lemma_prefix_step(s, k - 1);
        lemma_prefix_monotone(s, j, k - 1);
    }
}

/// A draw selects at most one slot: distinct slots have disjoint intervals.
pub proof fn lemma_selection_unique(s: Seq<u64>, r: int, i: int, j: int)
    requires
        selects(s, r, i),
        selects(s, r, j),
    ensures
        i == j,
{
    if r < sum(s) && i != j {
        if i < j {
            lemma_prefix_monotone(s, i + 1, j);
        } else {
            lemma_prefix_monotone(s, j + 1, i);
        }
    }
}

/// Selection is fitness-proportionate: among the `sum(s)` equally likely
/// draws in `[0, sum(s))`, slot `i` is selected by exactly `s[i]` of them,
/// those of the interval `[prefix_sum(i), prefix_sum(i + 1))`.
pub proof fn lemma_selection_frequency(s: Seq<u64>, i: int)
    requires
        0 <= i < s.len(),
    ensures
        Set::new(|r: int| 0 <= r < sum(s) && selects(s, r, i)) == set_int_range(
            prefix_sum(s, i),
            prefix_sum(s, i + 1),
        ),
        Set::new(|r: int| 0 <= r < sum(s) && selects(s, r, i)).len() == s[i],
{
    lemma_prefix_step(s, i);
    lemma_prefix_monotone(s, 0, i);
    lemma_prefix_monotone(s, i + 1, s.len() as int);
    lemma_prefix_full(s);
    assert(s.subrange(0, 0) =~= Seq::<u64>::empty());
    assert(Set::new(|r: int| 0 <= r < sum(s) && selects(s, r, i)) =~= set_int_range(
        prefix_sum(s, i),
        prefix_sum(s, i + 1),
    ));
    lemma_int_range(prefix_sum(s, i), prefix_sum(s, i + 1));
}

/// Roulette-wheel selection: the slot that the draw `r` lands in, walking the
/// scores in index order; the last slot when `r` reaches past the total.
pub fn select_index(scores: &Vec<u64>, r: u64) -> (i: usize)
    requires
        scores@.len() > 0,
        sum(scores@) <= u64::MAX,
    ensures
        selects(scores@, r as int, i as int),
{
    let n = scores.len();
    let mut acc: u64 = 0;
    let mut i: usize = 0;
    proof {
        lemma_prefix_full(scores@);
        lemma_prefix_step(scores@, 0);
        lemma_prefix_monotone(scores@, 1, n as int);
    }
    while i + 1 < n && acc + scores[i] <= r
        invariant
            n == scores@.len(),
            0 <= i < n,
            acc == prefix_sum(scores@, i as int),
            acc <= r,
            acc + scores@[i as int] == prefix_sum(scores@, i as int + 1),
            prefix_sum(scores@, i as int + 1) <= sum(scores@),
            sum(scores@) <= u64::MAX,
            prefix_sum(scores@, n as int) == sum(scores@),
        decreases n - i,
    {
        acc = acc + scores[i];
        i = i + 1;
        proof {
            lemma_prefix_step(scores@, i as int);
            lemma_prefix_monotone(scores@, i as int + 1, n as int);
        }
    }
    proof {
        lemma_prefix_step(scores@, i as int);
        lemma_prefix_monotone(scores@, i as int + 1, n as int);
        if i + 1 == n {
            lemma_prefix_monotone(scores@, i as int, n as int);
        }
    }
    i
}

/// Evaluates one generation's fitness scores: the index of the first fittest
/// genome and the total fitness, or why they give no distribution.
pub fn assess(scores: &Vec<u64>) -> (r: Result<(usize, u64), LiveError>)
    ensures
        assessed(scores@, r),
{
    let n = scores.len();
    if n == 0 {
        return Err(LiveError::EmptyPopulation);
    }
    let mut total: u64 = 0;
    let mut best: usize = 0;
    let mut i: usize = 0;
    while i < n
        invariant
            n == scores@.len(),
            0 <= i <= n,
            best < n,
            best <= i,
            total == prefix_sum(scores@, i as int),
            forall|j: int| 0 <= j < i ==> scores@[j] <= scores@[best as int],
            forall|j: int| 0 <= j < best ==> scores@[j] < scores@[best as int],
        decreases n - i,
    {
        proof {
            lemma_prefix_step(scores@, i as int);
        }
        match total.checked_add(scores[i]) {
            Some(t) => {
                total = t;
            },
            None => {
                proof {
                    lemma_prefix_monotone(scores@, i as int + 1, n as int);
                    lemma_prefix_full(scores@);
                }
                return Err(LiveError::FitnessOverflow);
            },
        }
        if scores[i] > scores[best] {
            best = i;
        }
        i = i + 1;
    }
    proof {
        lemma_prefix_full(scores@);
    }
    if total == 0 {
        return Err(LiveError::ZeroFitness);
    }
    Ok((best, total))
}

/// What a candidate-solution type supplies to be evolved by a `Population`.
pub trait Genome: Sized {
    /// `self` is an individual that `new` may return.
    spec fn initial(&self) -> bool;

    /// The individual's quality, a function of the individual alone.
    spec fn spec_fitness(&self) -> u64;

    /// `child` is an offspring that crossing `self` with `other` may return.
    spec fn crossed(&self, other: &Self, child: &Self) -> bool;

    /// `m` is a result that mutating `self` may return.
    spec fn mutated(&self, m: &Self) -> bool;

    /// Creates one initial individual.
    fn new() -> (g: Self)
        ensures
            g.initial(),
    ;

    /// The individual's quality, higher being better.
    fn fitness(&self) -> (r: u64)
        ensures
            r == self.spec_fitness(),
    ;

    /// Combines `self` and `other` into one offspring, leaving both unchanged.
    fn cross(&self, other: &Self) -> (c: Self)
        ensures
            self.crossed(other, &c),
    ;

    /// Takes an individual and returns a possibly altered version of it.
    fn mutate(self) -> (m: Self)
        ensures
            self.mutated(&m),
    ;

    /// Reports the individual; called on the fittest of each evaluated
    /// generation.
    fn display(&self);
}

/// A fixed-size collection of genomes with the fitness scores of its last
/// evaluation.
pub struct Population<T: Genome> {
    genomes: Vec<T>,
    scores: Vec<u64>,
    total: u64,
}

impl<T: Genome> Population<T> {
    /// The genomes, in index order.
    pub closed spec fn genomes_view(&self) -> Seq<T> {
        self.genomes@
    }

    /// The fitness scores of the last successful evaluation; empty when the
    /// current genomes have not been evaluated.
    pub closed spec fn scores_view(&self) -> Seq<u64> {
        self.scores@
    }

    /// The sum of the scores; `0` when the genomes have not been evaluated.
    pub closed spec fn total_view(&self) -> nat {
        self.total as nat
    }

    /// The fitness of each genome, in index order.
    pub open spec fn fitness_view(&self) -> Seq<u64> {
        Seq::new(self.genomes_view().len(), |i: int| self.genomes_view()[i].spec_fitness())
    }

    /// Genome `i` may be drawn as a parent: some draw in `[0, total)` selects it.
    pub open spec fn can_pick(&self, i: int) -> bool {
        exists|d: int| 0 <= d < self.total_view() && selects(self.scores_view(), d, i)
    }

    /// `g` is the mutated offspring of two genomes of this population that
    /// roulette-wheel selection may draw as parents (possibly the same one).
    pub open spec fn is_offspring(&self, g: T) -> bool {
        exists|a: int, b: int, c: T|
            {
                &&& 0 <= a < self.genomes_view().len()
                &&& 0 <= b < self.genomes_view().len()
                &&& self.can_pick(a)
                &&& self.can_pick(b)
                &&& self.genomes_view()[a].crossed(&self.genomes_view()[b], &c)
                &&& c.mutated(&g)
            }
    }

    /// The current genomes were evaluated: one score per genome, with a
    /// positive total, so `scores[i] / total` is a probability distribution.
    pub open spec fn is_evaluated(&self) -> bool {
        &&& 0 < self.total_view() <= u64::MAX
        &&& self.scores_view().len() == self.genomes_view().len()
        &&& sum(self.scores_view()) == self.total_view()
    }

    /// Either no weights are held, or they belong to the current genomes.
    pub open spec fn wf(&self) -> bool {
        ||| self.is_evaluated()
        ||| (self.scores_view().len() == 0 && self.total_view() == 0)
    }

    /// Creates a population of `size` individuals made by `T::new`.
    pub fn new(size: usize) -> (p: Self)
        ensures
            p.wf(),
            !p.is_evaluated(),
            p.genomes_view().len() == size,
            forall|k: int| 0 <= k < size ==> (#[trigger] p.genomes_view()[k]).initial(),
    {
        let mut genomes: Vec<T> = Vec::new();
        let mut k: usize = 0;
        while k < size
            invariant
                k <= size,
                genomes@.len() == k,
                forall|j: int| 0 <= j < k ==> (#[trigger] genomes@[j]).initial(),
            decreases size - k,
        {
            genomes.push(T::new());
            k = k + 1;
        }
        Population { genomes, scores: Vec::new(), total: 0 }
    }

    /// Creates a population of the given individuals, in that order.
    pub fn from_genomes(genomes: Vec<T>) -> (p: Self)
        ensures
            p.wf(),
            !p.is_evaluated(),
            p.genomes_view() == genomes@,
    {
        Population { genomes, scores: Vec::new(), total: 0 }
    }

    /// The number of individuals.
    pub fn size(&self) -> (n: usize)
        ensures
            n == self.genomes_view().len(),
    {
        self.genomes.len()
    }

    /// Evaluates every individual, stores its fitness as its weight and
    /// reports the first fittest through `display`, returning its index. The
    /// genomes are left unchanged. On failure no weights are held.
    pub fn live(&mut self) -> (r: Result<usize, LiveError>)
        ensures
            final(self).genomes_view() == old(self).genomes_view(),
            final(self).wf(),
            match live_error(old(self).fitness_view()) {
                Some(e) => r == Err::<usize, LiveError>(e) && final(self).scores_view().len() == 0,
                None => {
                    &&& r is Ok
                    &&& is_first_max(old(self).fitness_view(), r->Ok_0 as int)
                    &&& final(self).scores_view() == old(self).fitness_view()
                    &&& final(self).is_evaluated()
                },
            },
    {
        let n = self.genomes.len();
        let mut scores: Vec<u64> = Vec::new();
        let mut i: usize = 0;
        while i < n
            invariant
                n == self.genomes@.len(),
                i <= n,
                scores@.len() == i,
                forall|j: int| 0 <= j < i ==> scores@[j] == (#[trigger] self.genomes@[j]).spec_fitness(),
            decreases n - i,
        {
            scores.push(self.genomes[i].fitness());
            i = i + 1;
        }
        assert(scores@ =~= self.fitness_view());
        match assess(&scores) {
            Ok((best, total)) => {
                self.genomes[best].display();
                self.scores = scores;
                self.total = total;
                Ok(best)
            },
            Err(e) => {
                self.scores = Vec::new();
                self.total = 0;
                Err(e)
            },
        }
    }

    /// The stored weights of an evaluated population form a probability
    /// distribution: one weight `scores[i] / total` per genome, each in
    /// `[0, 1]`, summing to exactly `1`.
    pub proof fn lemma_weights_distribution(&self)
        requires
            self.is_evaluated(),
        ensures
            self.scores_view().len() == self.genomes_view().len(),
            self.total_view() > 0,
            forall|i: int|
                0 <= i < self.scores_view().len() ==> 0 <= #[trigger] self.scores_view()[i]
                    <= self.total_view(),
            sum(self.scores_view()) == self.total_view(),
    {
        let s = self.scores_view();
        assert forall|i: int| 0 <= i < s.len() implies 0 <= #[trigger] s[i] <= self.total_view() by {
            lemma_prefix_step(s, i);
            lemma_prefix_monotone(s, 0, i);
            lemma_prefix_monotone(s, i + 1, s.len() as int);
            lemma_prefix_full(s);
        }
    }

    /// In a population of one, the sole genome is drawn as both parents: every
    /// offspring is a mutation of genome `0` crossed with itself.
    pub proof fn lemma_single_parent(&self, g: T)
        requires
            self.is_evaluated(),
            self.genomes_view().len() == 1,
            self.is_offspring(g),
        ensures
            exists|c: T|
                self.genomes_view()[0].crossed(&self.genomes_view()[0], &c) && c.mutated(&g),
    {
        let (a, b, c) = choose|a: int, b: int, c: T|
            {
                &&& 0 <= a < self.genomes_view().len()
                &&& 0 <= b < self.genomes_view().len()
                &&& self.can_pick(a)
                &&& self.can_pick(b)
                &&& self.genomes_view()[a].crossed(&self.genomes_view()[b], &c)
                &&& c.mutated(&g)
            };
        assert(a == 0 && b == 0);
        assert(self.genomes_view()[0].crossed(&self.genomes_view()[0], &c) && c.mutated(&g));
    }

    /// The genomes, in index order.
    pub fn genomes(&self) -> (g: &Vec<T>)
        ensures
            g@ == self.genomes_view(),
    {
        &self.genomes
    }

    /// The score of each genome from the last successful evaluation; the
    /// weight of genome `i` is `weights()[i] / total_fitness()`. Empty when
    /// the current genomes have not been evaluated.
    pub fn weights(&self) -> (w: &Vec<u64>)
        ensures
            w@ == self.scores_view(),
    {
        &self.scores
    }

    /// The sum of the scores of the last successful evaluation; `0` when the
    /// current genomes have not been evaluated.
    pub fn total_fitness(&self) -> (t: u64)
        ensures
            t == self.total_view(),
    {
        self.total
    }

    /// Draws one parent by roulette-wheel selection: a uniform draw in
    /// `[0, total)` lands in the slot of the genome whose score covers it.
    fn pick_one(&self) -> (i: usize)
        requires
            self.is_evaluated(),
        ensures
            i < self.genomes_view().len(),
            self.can_pick(i as int),
    {
        let d = draw_below(self.total);
        select_index(&self.scores, d)
    }

    /// Replaces every individual by the mutated offspring of two parents drawn
    /// by roulette-wheel selection from the evaluated generation. The size is
    /// kept, and the new generation is left unevaluated.
    pub fn next_generation(&mut self)
        requires
            old(self).is_evaluated(),
        ensures
            final(self).genomes_view().len() == old(self).genomes_view().len(),
            final(self).wf(),
            !final(self).is_evaluated(),
            forall|k: int|
                0 <= k < final(self).genomes_view().len() ==> old(self).is_offspring(
                    #[trigger] final(self).genomes_view()[k],
                ),
    {
        let n = self.genomes.len();
        let mut next: Vec<T> = Vec::new();
        let mut k: usize = 0;
        while k < n
            invariant
                *self == *old(self),
                n == self.genomes@.len(),
                self.is_evaluated(),
                k <= n,
                next@.len() == k,
                forall|j: int| 0 <= j < k ==> old(self).is_offspring(#[trigger] next@[j]),
            decreases n - k,
        {
            let a = self.pick_one();
            let b = self.pick_one();
            let c = self.genomes[a].cross(&self.genomes[b]);
            let ghost gc = c;
            let child = c.mutate();
            assert(old(self).is_offspring(child)) by {
                assert(self.genomes_view()[a as int].crossed(&self.genomes_view()[b as int], &gc));
            }
            next.push(child);
            k = k + 1;
        }
        self.genomes = next;
        self.scores = Vec::new();
        self.total = 0;
    }
}

} // verus!
