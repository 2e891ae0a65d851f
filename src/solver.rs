use vstd::prelude::*;

use crate::game::{completes, sentinel_move, MarjaPussiGameState, MarjaPussiMove};
use crate::record::{encode_record, encodes, fits_record, EncodeError, GpuMarjaState};

verus! {

/// The batch evaluator could not score the batch it was given.
#[derive(Clone, Copy, Debug, PartialEq, Eq, Structural)]
pub struct BatchEvaluationFailure;

/// Why a move could not be selected.
#[derive(Clone, Copy, Debug, PartialEq, Eq, Structural)]
pub enum PimcError {
    /// A sampled state did not fit into a record.
    EncodingOverflow,
    /// The evaluator failed, or handed back a score list of the wrong length.
    BatchEvaluationFailure,
}

/// Scores a batch of records, each on its own. On success the result holds
/// one score per record, in the order of the records; a higher score is
/// better for the player acting in that record.
pub trait RolloutEvaluator {
    fn evaluate_batch(&mut self, records: &Vec<GpuMarjaState>) -> Result<
        Vec<i64>,
        BatchEvaluationFailure,
    >;
}

/// Records to evaluate, and beside each the index of the move that produced it.
pub struct RolloutBatch {
    pub records: Vec<GpuMarjaState>,
    pub move_index: Vec<usize>,
}

/// Flat Monte Carlo over determinizations: each legal move is tried on
/// `rollouts_per_move` sampled completions of the state.
pub struct PIMCSolver {
    pub rollouts_per_move: usize,
}

/// The samples of each move stand in one block of `k` consecutive positions,
/// the moves in order: position `i` belongs to move `i / k`.
pub open spec fn blockwise(idx: Seq<usize>, k: int) -> bool {
    forall|i: int| 0 <= i < idx.len() ==> #[trigger] idx[i] * k <= i < idx[i] * k + k
}

/// The sum of the scores at the first `n` positions that belong to move `m`.
pub open spec fn total_upto(scores: Seq<i64>, idx: Seq<usize>, m: int, n: int) -> int
    decreases n,
{
    if n <= 0 {
        0
    } else {
        total_upto(scores, idx, m, n - 1) + if idx[n - 1] == m {
            scores[n - 1] as int
        } else {
            0int
        }
    }
}

/// How many of the first `n` positions belong to move `m`.
pub open spec fn count_upto(idx: Seq<usize>, m: int, n: int) -> int
    decreases n,
{
    if n <= 0 {
        0
    } else {
        count_upto(idx, m, n - 1) + if idx[n - 1] == m {
            1int
        } else {
            0int
        }
    }
}

/// The score total of each of `n_moves` moves.
pub open spec fn move_totals(scores: Seq<i64>, idx: Seq<usize>, n_moves: int) -> Seq<int> {
    Seq::new(n_moves as nat, |m: int| total_upto(scores, idx, m, idx.len() as int))
}

/// The number of scores of each of `n_moves` moves.
pub open spec fn move_counts(idx: Seq<usize>, n_moves: int) -> Seq<int> {
    Seq::new(n_moves as nat, |m: int| count_upto(idx, m, idx.len() as int))
}

/// The mean `sa / ca` is strictly above the mean `sb / cb` (positive counts).
pub open spec fn mean_above(sa: int, ca: int, sb: int, cb: int) -> bool {
    sa * cb > sb * ca
}

/// `r` is the move of greatest mean, the lowest index among equal means.
pub open spec fn is_best_mean(sums: Seq<int>, counts: Seq<int>, r: int) -> bool {
    &&& 0 <= r < sums.len()
    &&& forall|j: int| 0 <= j < sums.len() ==> !mean_above(sums[j], counts[j], sums[r], counts[r])
    &&& forall|j: int| 0 <= j < r ==> mean_above(sums[r], counts[r], sums[j], counts[j])
}

proof fn lemma_mean_above_equal_counts(sa: int, sb: int, c: int)
    requires
        c > 0,
    ensures
        mean_above(sa, c, sb, c) <==> sa > sb,
{
    assert(sa > sb ==> sa * c > sb * c) by (nonlinear_arith)
        requires
            c > 0,
    ;
    assert(sa * c > sb * c ==> sa > sb) by (nonlinear_arith)
        requires
            c > 0,
    ;
}

/// Sums and counts the scores of each move, following the position-to-move
/// mapping.
pub fn aggregate(scores: &Vec<i64>, move_index: &Vec<usize>, n_moves: usize) -> (r: (
    Vec<i128>,
    Vec<usize>,
))
    requires
        scores.len() == move_index.len(),
        forall|i: int| 0 <= i < move_index.len() ==> move_index@[i] < n_moves,
    ensures
        r.0.len() == n_moves,
        r.1.len() == n_moves,
        forall|m: int|
            0 <= m < n_moves ==> r.0@[m] as int == total_upto(
                scores@,
                move_index@,
                m,
                move_index.len() as int,
            ),
        forall|m: int|
            0 <= m < n_moves ==> r.1@[m] as int == count_upto(move_index@, m, move_index.len() as int),
{
    let mut sums: Vec<i128> = Vec::new();
    let mut counts: Vec<usize> = Vec::new();
    let mut m: usize = 0;
    while m < n_moves
        invariant
            m <= n_moves,
            sums.len() == m,
            counts.len() == m,
            forall|j: int| 0 <= j < m ==> sums@[j] == 0 && counts@[j] == 0,
        decreases n_moves - m,
    {
        sums.push(0);
        counts.push(0);
        m = m + 1;
    }
    let n = scores.len();
    let mut i: usize = 0;
    while i < n
        invariant
            n == scores.len(),
            n == move_index.len(),
            i <= n,
            sums.len() == n_moves,
            counts.len() == n_moves,
            forall|j: int| 0 <= j < n ==> move_index@[j] < n_moves,
            forall|j: int|
                0 <= j < n_moves ==> sums@[j] as int == total_upto(scores@, move_index@, j, i as int),
            forall|j: int|
                0 <= j < n_moves ==> counts@[j] as int == count_upto(move_index@, j, i as int),
            forall|j: int|
                0 <= j < n_moves ==> -(i as int) * 0x8000_0000_0000_0000 <= #[trigger] sums@[j] as int <= (
                i as int) * 0x8000_0000_0000_0000,
            forall|j: int| 0 <= j < n_moves ==> counts@[j] <= i,
        decreases n - i,
    {
        let mi = move_index[i];
        let s = sums[mi] + scores[i] as i128;
        let c = counts[mi] + 1;
        sums.set(mi, s);
        counts.set(mi, c);
        i = i + 1;
    }
    (sums, counts)
}

/// The index of the greatest mean among moves that all have the same
/// positive number of scores; the lowest index wins a tie.
pub fn best_mean_index(sums: &Vec<i128>, counts: &Vec<usize>) -> (r: usize)
    requires
        sums.len() == counts.len(),
        sums.len() > 0,
        forall|m: int| 0 <= m < counts.len() ==> #[trigger] counts@[m] == counts@[0],
        counts@[0] > 0,
    ensures
        is_best_mean(
            Seq::new(sums.len() as nat, |m: int| sums@[m] as int),
            Seq::new(counts.len() as nat, |m: int| counts@[m] as int),
            r as int,
        ),
{
    let mut best: usize = 0;
    let mut m: usize = 1;
    while m < sums.len()
        invariant
            1 <= m <= sums.len(),
            best < m,
            forall|j: int| 0 <= j < m ==> sums@[j] <= sums@[best as int],
            forall|j: int| 0 <= j < best ==> sums@[j] < sums@[best as int],
        decreases sums.len() - m,
    {
        if sums[m] > sums[best] {
            best = m;
        }
        m = m + 1;
    }
    proof {
        let c = counts@[0] as int;
        assert forall|j: int| 0 <= j < sums.len() implies !mean_above(
            sums@[j] as int,
            counts@[j] as int,
            sums@[best as int] as int,
            counts@[best as int] as int,
        ) by {
            lemma_mean_above_equal_counts(sums@[j] as int, sums@[best as int] as int, c);
        }
        assert forall|j: int| 0 <= j < best implies mean_above(
            sums@[best as int] as int,
            counts@[best as int] as int,
            sums@[j] as int,
            counts@[j] as int,
        ) by {
            lemma_mean_above_equal_counts(sums@[best as int] as int, sums@[j] as int, c);
        }
    }
    best
}

/// `n - lo` held between `0` and `k`.
pub open spec fn clamp_block(n: int, lo: int, k: int) -> int {
    if n - lo < 0 {
        0
    } else if n - lo > k {
        k
    } else {
        n - lo
    }
}

proof fn lemma_block_order(q: int, m: int, k: int)
    requires
        q < m,
        k >= 0,
    ensures
        q * k + k <= m * k,
{
    assert(q * k + k <= m * k) by (nonlinear_arith)
        requires
            q < m,
            k >= 0,
    ;
}

proof fn lemma_count_prefix(idx: Seq<usize>, k: int, m: int, n: int)
    requires
        blockwise(idx, k),
        k > 0,
        0 <= m,
        0 <= n <= idx.len(),
    ensures
        count_upto(idx, m, n) == clamp_block(n, m * k, k),
    decreases n,
{
    if n == 0 {
        assert(m * k >= 0) by (nonlinear_arith)
            requires
                m >= 0,
                k > 0,
        ;
    } else {
        lemma_count_prefix(idx, k, m, n - 1);
        let q = idx[n - 1] as int;
        assert(q * k <= n - 1 < q * k + k);
        if q < m {
            lemma_block_order(q, m, k);
        } else if q > m {
            lemma_block_order(m, q, k);
        }
    }
}

/// In a batch laid out in blocks of `k` samples per move, each of the
/// `n_moves` moves has exactly `k` scores.
pub proof fn lemma_counts_per_move(idx: Seq<usize>, k: int, n_moves: int)
    requires
        blockwise(idx, k),
        k > 0,
        n_moves >= 0,
        idx.len() == n_moves * k,
    ensures
        forall|m: int| 0 <= m < n_moves ==> #[trigger] move_counts(idx, n_moves)[m] == k,
{
    assert forall|m: int| 0 <= m < n_moves implies #[trigger] move_counts(idx, n_moves)[m] == k by {
        lemma_count_prefix(idx, k, m, idx.len() as int);
        lemma_block_order(m, n_moves, k);
    }
}

/// `r` is the result of picking a move from the batch's scores.
pub open spec fn picked_from_scores(
    moves: Seq<MarjaPussiMove>,
    idx: Seq<usize>,
    scores: Result<Vec<i64>, BatchEvaluationFailure>,
    r: Result<MarjaPussiMove, PimcError>,
) -> bool {
    match scores {
        Err(_) => r == Err::<MarjaPussiMove, PimcError>(PimcError::BatchEvaluationFailure),
        Ok(s) => if s.len() != idx.len() {
            r == Err::<MarjaPussiMove, PimcError>(PimcError::BatchEvaluationFailure)
        } else {
            exists|b: int|
                is_best_mean(
                    move_totals(s@, idx, moves.len() as int),
                    move_counts(idx, moves.len() as int),
                    b,
                ) && r == Ok::<MarjaPussiMove, PimcError>(moves[b])
        },
    }
}

/// Picks the move of greatest mean score from what the evaluator returned
/// for a batch built with `k` samples per move. A failure of the
/// evaluator, or a score list whose length differs from the batch's, is
/// a failed decision.
pub fn choose_from_scores(
    moves: &Vec<MarjaPussiMove>,
    move_index: &Vec<usize>,
    k: usize,
    scores: Result<Vec<i64>, BatchEvaluationFailure>,
) -> (r: Result<MarjaPussiMove, PimcError>)
    requires
        moves.len() >= 1,
        k >= 1,
        move_index.len() == moves.len() * k,
        blockwise(move_index@, k as int),
        forall|i: int| 0 <= i < move_index.len() ==> move_index@[i] < moves.len(),
    ensures
        picked_from_scores(moves@, move_index@, scores, r),
{
    match scores {
        Err(_) => Err(PimcError::BatchEvaluationFailure),
        Ok(s) => {
            if s.len() != move_index.len() {
                return Err(PimcError::BatchEvaluationFailure);
            }
            let (sums, counts) = aggregate(&s, move_index, moves.len());
            proof {
                lemma_counts_per_move(move_index@, k as int, moves.len() as int);
                assert(counts@[0] as int == move_counts(move_index@, moves.len() as int)[0]);
                assert forall|m: int| 0 <= m < counts.len() implies #[trigger] counts@[m]
                    == counts@[0] by {
                    assert(counts@[m] as int == move_counts(move_index@, moves.len() as int)[m]);
                }
            }
            let b = best_mean_index(&sums, &counts);
            proof {
                assert(Seq::new(sums.len() as nat, |m: int| sums@[m] as int) =~= move_totals(
                    s@,
                    move_index@,
                    moves.len() as int,
                ));
                assert(Seq::new(counts.len() as nat, |m: int| counts@[m] as int) =~= move_counts(
                    move_index@,
                    moves.len() as int,
                ));
            }
            Ok(moves[b])
        },
    }
}

/// The layout of a batch built with `k` samples for each of `n_moves` moves:
/// one mapping entry per record, the samples of each move in one block.
pub open spec fn batch_laid_out(b: RolloutBatch, n_moves: int, k: int) -> bool {
    &&& b.records.len() == n_moves * k
    &&& b.move_index.len() == n_moves * k
    &&& blockwise(b.move_index@, k)
    &&& forall|i: int| 0 <= i < b.move_index.len() ==> b.move_index@[i] < n_moves
}

/// `rec` is the record of the state `s`.
pub open spec fn encodes_state<S: MarjaPussiGameState>(rec: GpuMarjaState, s: S) -> bool {
    encodes(rec, s.current_player_spec(), s.is_terminal_spec(), s.card_locations_spec())
}

/// `rec` is the record of some completion of `state` with `mv` then played.
pub open spec fn sample_record<S: MarjaPussiGameState>(
    rec: GpuMarjaState,
    state: S,
    mv: MarjaPussiMove,
) -> bool {
    exists|d: S| #[trigger] completes(d, state) && encodes_state(rec, d.after_move(mv))
}

/// `b` is a batch for `moves` with `k` samples each: laid out in blocks by
/// move, and record `i` is a sample of move `move_index[i]`.
pub open spec fn batch_for<S: MarjaPussiGameState>(
    b: RolloutBatch,
    state: S,
    moves: Seq<MarjaPussiMove>,
    k: int,
) -> bool {
    &&& batch_laid_out(b, moves.len() as int, k)
    &&& forall|i: int|
        0 <= i < b.records.len() ==> #[trigger] sample_record(
            b.records@[i],
            state,
            moves[b.move_index@[i] as int],
        )
}

/// `r` was decided from a batch for `moves` with `k` samples each: it is
/// the pick from what the evaluator returned for that batch.
pub open spec fn decided_from_batch<S: MarjaPussiGameState>(
    state: S,
    moves: Seq<MarjaPussiMove>,
    k: int,
    r: Result<MarjaPussiMove, PimcError>,
) -> bool {
    exists|b: RolloutBatch|
        #[trigger] batch_for(b, state, moves, k) && exists|sc: Result<Vec<i64>, BatchEvaluationFailure>|
            #[trigger] picked_from_scores(moves, b.move_index@, sc, r)
}

impl PIMCSolver {
    /// Chooses the next move from a partial-information state: samples
    /// `rollouts_per_move` determinizations for each legal move, applies the
    /// move, scores all of them in one call of `evaluator`, and returns the
    /// move of greatest mean score. With no legal move it returns the
    /// sentinel move, with one it returns that move; neither case samples or
    /// evaluates anything.
    pub fn select_move<S: MarjaPussiGameState, E: RolloutEvaluator>(
        &self,
        state: &S,
        evaluator: &mut E,
        rng: &mut rand::rngs::StdRng,
    ) -> (r: Result<MarjaPussiMove, PimcError>)
        requires
            self.rollouts_per_move >= 1,
            state.legal_moves_spec().len() * self.rollouts_per_move <= usize::MAX,
            state.admits_deal(),
        ensures
            state.legal_moves_spec().len() == 0 ==> r == Ok::<MarjaPussiMove, PimcError>(
                sentinel_move(),
            ),
            state.legal_moves_spec().len() == 1 ==> r == Ok::<MarjaPussiMove, PimcError>(
                state.legal_moves_spec()[0],
            ),
            state.legal_moves_spec().len() <= 1 ==> *final(evaluator) == *old(evaluator),
            state.legal_moves_spec().len() <= 1 ==> *final(rng) == *old(rng),
            state.legal_moves_spec().len() >= 2 ==> r == Err::<MarjaPussiMove, PimcError>(
                PimcError::EncodingOverflow,
            ) || decided_from_batch(*state, state.legal_moves_spec(), self.rollouts_per_move as int, r),
            r is Ok && state.legal_moves_spec().len() >= 1 ==> exists|i: int|
                0 <= i < state.legal_moves_spec().len() && r->Ok_0 == state.legal_moves_spec()[i],
    {
        let moves = state.legal_moves();
        if moves.len() == 0 {
            return Ok(MarjaPussiMove { move_id: 0 });
        }
        if moves.len() == 1 {
            return Ok(moves[0]);
        }
        let batch = match self.build_batch(state, &moves, rng) {
            Ok(b) => b,
            Err(e) => return Err(e),
        };
        let scores = evaluator.evaluate_batch(&batch.records);
        let r = choose_from_scores(&moves, &batch.move_index, self.rollouts_per_move, scores);
        assert(picked_from_scores(moves@, batch.move_index@, scores, r));
        assert(batch_for(batch, *state, moves@, self.rollouts_per_move as int));
        proof {
            if r is Ok {
                let s = scores->Ok_0;
                let b = choose|b: int|
                    is_best_mean(
                        move_totals(s@, batch.move_index@, moves.len() as int),
                        move_counts(batch.move_index@, moves.len() as int),
                        b,
                    ) && r == Ok::<MarjaPussiMove, PimcError>(moves@[b]);
                assert(0 <= b < moves.len());
            }
        }
        r
    }

    /// Builds the batch for `moves`: for each move in order, and for each of
    /// `rollouts_per_move` repetitions, a fresh determinization of `state`
    /// with the move applied, encoded, beside the index of the move.
    pub fn build_batch<S: MarjaPussiGameState>(
        &self,
        state: &S,
        moves: &Vec<MarjaPussiMove>,
        rng: &mut rand::rngs::StdRng,
    ) -> (r: Result<RolloutBatch, PimcError>)
        requires
            self.rollouts_per_move >= 1,
            moves.len() * self.rollouts_per_move <= usize::MAX,
            state.admits_deal(),
        ensures
            r matches Ok(b) ==> batch_for(b, *state, moves@, self.rollouts_per_move as int),
            r is Err ==> r == Err::<RolloutBatch, PimcError>(PimcError::EncodingOverflow),
            moves.len() == 0 ==> r is Ok,
    {
        let k = self.rollouts_per_move;
        let n_moves = moves.len();
        let mut records: Vec<GpuMarjaState> = Vec::new();
        let mut move_index: Vec<usize> = Vec::new();
        let mut m: usize = 0;
        while m < n_moves
            invariant
                k == self.rollouts_per_move,
                k >= 1,
                n_moves == moves.len(),
                m <= n_moves,
                records.len() == m * k,
                move_index.len() == m * k,
                blockwise(move_index@, k as int),
                forall|i: int| 0 <= i < move_index.len() ==> move_index@[i] < m,
                state.admits_deal(),
                forall|i: int|
                    0 <= i < records.len() ==> #[trigger] sample_record(
                        records@[i],
                        *state,
                        moves@[move_index@[i] as int],
                    ),
            decreases n_moves - m,
        {
            let mut rep: usize = 0;
            while rep < k
                invariant
                    k >= 1,
                    n_moves == moves.len(),
                    m < n_moves,
                    rep <= k,
                    records.len() == m * k + rep,
                    move_index.len() == m * k + rep,
                    blockwise(move_index@, k as int),
                    forall|i: int| 0 <= i < move_index.len() ==> move_index@[i] <= m,
                    state.admits_deal(),
                    forall|i: int|
                        0 <= i < records.len() ==> #[trigger] sample_record(
                            records@[i],
                            *state,
                            moves@[move_index@[i] as int],
                        ),
                decreases k - rep,
            {
                let mut det = self.determinize(state, rng);
                let ghost sampled = det;
                det.apply_move(&moves[m]);
                let rec = match self.to_gpu_state(&det) {
                    Ok(rec) => rec,
                    Err(_) => return Err(PimcError::EncodingOverflow),
                };
                assert(sample_record(rec, *state, moves@[m as int])) by {
                    assert(completes(sampled, *state));
                    assert(encodes_state(rec, sampled.after_move(moves@[m as int])));
                }
                let ghost before = move_index@;
                let ghost records_before = records@;
                records.push(rec);
                move_index.push(m);
                assert forall|i: int| 0 <= i < records.len() implies #[trigger] sample_record(
                    records@[i],
                    *state,
                    moves@[move_index@[i] as int],
                ) by {
                    if i < before.len() {
                        assert(records@[i] == records_before[i]);
                        assert(move_index@[i] == before[i]);
                    }
                }
                assert forall|i: int| 0 <= i < move_index.len() implies #[trigger] move_index@[i]
                    * k <= i < move_index@[i] * k + k by {
                    if i < before.len() {
                        assert(move_index@[i] == before[i]);
                    }
                }
                rep = rep + 1;
            }
            assert(m * k + k == (m + 1) * k) by (nonlinear_arith);
            m = m + 1;
        }
        Ok(RolloutBatch { records, move_index })
    }

    /// One perfect-information completion of `state`, drawn with `rng`.
    pub fn determinize<S: MarjaPussiGameState>(&self, state: &S, rng: &mut rand::rngs::StdRng) -> (r:
        S)
        requires
            state.admits_deal(),
        ensures
            completes(r, *state),
    {
        state.determinize(rng)
    }

    /// The record of a perfect-information state.
    pub fn to_gpu_state<S: MarjaPussiGameState>(&self, st: &S) -> (r: Result<
        GpuMarjaState,
        EncodeError,
    >)
        ensures
            r is Ok <==> fits_record(st.current_player_spec(), st.card_locations_spec()),
            r matches Ok(rec) ==> encodes(
                rec,
                st.current_player_spec(),
                st.is_terminal_spec(),
                st.card_locations_spec(),
            ),
    {
        let player = st.current_player();
        let terminal = st.is_terminal();
        let locs = st.card_locations();
        encode_record(player, terminal, &locs)
    }
}

/// In a batch laid out in blocks of `k`, position `i` was produced by move
/// `i / k`.
pub proof fn lemma_blockwise_index(idx: Seq<usize>, k: int)
    requires
        blockwise(idx, k),
        k > 0,
    ensures
        forall|i: int| 0 <= i < idx.len() ==> #[trigger] idx[i] == i / k,
{
    assert forall|i: int| 0 <= i < idx.len() implies #[trigger] idx[i] == i / k by {
        let q = idx[i] as int;
        assert(q * k <= i < q * k + k);
        assert(q == i / k) by (nonlinear_arith)
            requires
                q * k <= i < q * k + k,
                k > 0,
        ;
    }
}

/// At most one move is the best by mean with ties to the lowest index, so
/// the pick is determined by the totals and counts.
pub proof fn lemma_best_mean_unique(sums: Seq<int>, counts: Seq<int>, r1: int, r2: int)
    requires
        is_best_mean(sums, counts, r1),
        is_best_mean(sums, counts, r2),
    ensures
        r1 == r2,
{
    if r1 < r2 {
        assert(mean_above(sums[r2], counts[r2], sums[r1], counts[r1]));
    } else if r2 < r1 {
        assert(mean_above(sums[r1], counts[r1], sums[r2], counts[r2]));
    }
}

/// When two moves have exactly equal means, the higher-indexed of the two is
/// not the one picked.
pub proof fn lemma_tie_goes_to_lower_index(sums: Seq<int>, counts: Seq<int>, r: int, a: int, b: int)
    requires
        is_best_mean(sums, counts, r),
        0 <= a < b < sums.len(),
        sums[a] * counts[b] == sums[b] * counts[a],
    ensures
        r != b,
{
    if r == b {
        assert(mean_above(sums[b], counts[b], sums[a], counts[a]));
    }
}

proof fn lemma_total_after_raise(
    a: Seq<i64>,
    b: Seq<i64>,
    idx: Seq<usize>,
    i: int,
    m: int,
    n: int,
)
    requires
        a.len() == b.len(),
        b.len() == idx.len(),
        0 <= i < a.len(),
        0 <= n <= a.len(),
        forall|j: int| 0 <= j < a.len() && j != i ==> b[j] == a[j],
    ensures
        total_upto(b, idx, m, n) == total_upto(a, idx, m, n) + if i < n && idx[i] == m {
            b[i] - a[i]
        } else {
            0
        },
    decreases n,
{
    if n > 0 {
        lemma_total_after_raise(a, b, idx, i, m, n - 1);
    }
}

/// Raising one score of a batch laid out in blocks keeps the pick on the
/// move that the score belongs to: a score is credited to its own move only.
pub proof fn lemma_raise_keeps_pick(
    n_moves: int,
    idx: Seq<usize>,
    k: int,
    a: Seq<i64>,
    b: Seq<i64>,
    i: int,
)
    requires
        k >= 1,
        n_moves >= 1,
        idx.len() == n_moves * k,
        blockwise(idx, k),
        forall|j: int| 0 <= j < idx.len() ==> idx[j] < n_moves,
        a.len() == idx.len(),
        b.len() == idx.len(),
        0 <= i < idx.len(),
        b[i] >= a[i],
        forall|j: int| 0 <= j < a.len() && j != i ==> b[j] == a[j],
        is_best_mean(move_totals(a, idx, n_moves), move_counts(idx, n_moves), idx[i] as int),
    ensures
        is_best_mean(move_totals(b, idx, n_moves), move_counts(idx, n_moves), idx[i] as int),
{
    let r = idx[i] as int;
    let ta = move_totals(a, idx, n_moves);
    let tb = move_totals(b, idx, n_moves);
    let c = move_counts(idx, n_moves);
    lemma_counts_per_move(idx, k, n_moves);
    assert forall|j: int| 0 <= j < n_moves implies #[trigger] tb[j] == ta[j] + if j == r {
        b[i] - a[i]
    } else {
        0
    } by {
        lemma_total_after_raise(a, b, idx, i, j, idx.len() as int);
    }
    assert forall|j: int| 0 <= j < n_moves implies !mean_above(tb[j], c[j], tb[r], c[r]) by {
        assert(c[j] == k && c[r] == k);
        lemma_mean_above_equal_counts(ta[j], ta[r], k);
        lemma_mean_above_equal_counts(tb[j], tb[r], k);
    }
    assert forall|j: int| 0 <= j < r implies mean_above(tb[r], c[r], tb[j], c[j]) by {
        assert(c[j] == k && c[r] == k);
        lemma_mean_above_equal_counts(ta[r], ta[j], k);
        lemma_mean_above_equal_counts(tb[r], tb[j], k);
    }
}

} // verus!
