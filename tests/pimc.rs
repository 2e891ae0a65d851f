use marja_pimc::{
    aggregate, best_mean_index, choose_from_scores, deal_hidden, encode_record, holder_for_draw,
    BatchEvaluationFailure, EncodeError, FakeMarjaState, GpuMarjaState, MarjaPussiGameState,
    MarjaPussiMove, PIMCSolver, PimcError, RolloutEvaluator, CARD_SLOTS, FINISHING_MOVE_ID,
    HIDDEN, NUM_PLAYERS,
};
use rand::rngs::StdRng;
use rand::SeedableRng;

/// Counts its calls and the records it saw; scores each record by a
/// function of its position in the batch.
struct CountingEvaluator {
    calls: usize,
    sizes: Vec<usize>,
    per_move: usize,
}

impl CountingEvaluator {
    fn new(per_move: usize) -> Self {
        CountingEvaluator { calls: 0, sizes: Vec::new(), per_move }
    }
}

impl RolloutEvaluator for CountingEvaluator {
    fn evaluate_batch(
        &mut self,
        records: &Vec<GpuMarjaState>,
    ) -> Result<Vec<i64>, BatchEvaluationFailure> {
        self.calls += 1;
        self.sizes.push(records.len());
        let k = self.per_move;
        Ok((0..records.len()).map(|i| ((i / k) * 10 + i % k) as i64).collect())
    }
}

struct ConstantEvaluator;

impl RolloutEvaluator for ConstantEvaluator {
    fn evaluate_batch(
        &mut self,
        records: &Vec<GpuMarjaState>,
    ) -> Result<Vec<i64>, BatchEvaluationFailure> {
        Ok(vec![7; records.len()])
    }
}

struct FailingEvaluator;

impl RolloutEvaluator for FailingEvaluator {
    fn evaluate_batch(
        &mut self,
        _records: &Vec<GpuMarjaState>,
    ) -> Result<Vec<i64>, BatchEvaluationFailure> {
        Err(BatchEvaluationFailure)
    }
}

struct ShortEvaluator;

impl RolloutEvaluator for ShortEvaluator {
    fn evaluate_batch(
        &mut self,
        records: &Vec<GpuMarjaState>,
    ) -> Result<Vec<i64>, BatchEvaluationFailure> {
        Ok(vec![1; records.len() - 1])
    }
}

fn mv(id: u8) -> MarjaPussiMove {
    MarjaPussiMove { move_id: id }
}

fn state_with(moves: Vec<MarjaPussiMove>) -> FakeMarjaState {
    FakeMarjaState { turn: 0, done: false, moves }
}

#[test]
fn single_legal_move_is_returned_without_sampling() {
    let solver = PIMCSolver { rollouts_per_move: 4 };
    let state = state_with(vec![mv(9)]);
    let mut eval = CountingEvaluator::new(4);
    let mut rng = StdRng::seed_from_u64(1);
    let before = rng.clone();
    let r = solver.select_move(&state, &mut eval, &mut rng);
    assert_eq!(r, Ok(mv(9)));
    assert_eq!(eval.calls, 0);
    assert_eq!(rng, before);
}

#[test]
fn no_legal_move_gives_sentinel() {
    let solver = PIMCSolver { rollouts_per_move: 4 };
    let state = FakeMarjaState { turn: 2, done: true, moves: vec![mv(1), mv(2)] };
    let mut eval = CountingEvaluator::new(4);
    let mut rng = StdRng::seed_from_u64(2);
    let before = rng.clone();
    let r = solver.select_move(&state, &mut eval, &mut rng);
    assert_eq!(r, Ok(mv(0)));
    assert_eq!(eval.calls, 0);
    assert_eq!(rng, before);
}

#[test]
fn one_batch_of_moves_times_samples() {
    let solver = PIMCSolver { rollouts_per_move: 5 };
    let state = state_with(vec![mv(1), mv(2), mv(FINISHING_MOVE_ID)]);
    let mut eval = CountingEvaluator::new(5);
    let mut rng = StdRng::seed_from_u64(3);
    let r = solver.select_move(&state, &mut eval, &mut rng);
    assert!(r.is_ok());
    assert_eq!(eval.calls, 1);
    assert_eq!(eval.sizes, vec![15]);
}

#[test]
fn batch_mapping_follows_records() {
    let solver = PIMCSolver { rollouts_per_move: 3 };
    let moves = vec![mv(1), mv(FINISHING_MOVE_ID), mv(4), mv(5)];
    let state = state_with(moves.clone());
    let mut rng = StdRng::seed_from_u64(4);
    let batch = solver.build_batch(&state, &moves, &mut rng).unwrap_or_else(|_| panic!());
    assert_eq!(batch.records.len(), 12);
    assert_eq!(batch.move_index.len(), batch.records.len());
    for i in 0..12 {
        assert_eq!(batch.move_index[i], i / 3);
        // the finishing move ends the game; the others pass the turn on
        let rec = batch.records[i];
        if i / 3 == 1 {
            assert_eq!((rec.is_terminal, rec.current_player), (1, 0));
        } else {
            assert_eq!((rec.is_terminal, rec.current_player), (0, 1));
        }
    }
}

#[test]
fn aggregation_by_move_and_repetition() {
    // score = move index * 10 + repetition, two moves, three samples each
    let scores: Vec<i64> = vec![0, 1, 2, 10, 11, 12];
    let index: Vec<usize> = vec![0, 0, 0, 1, 1, 1];
    let (sums, counts) = aggregate(&scores, &index, 2);
    assert_eq!(sums, vec![3, 33]);
    assert_eq!(counts, vec![3, 3]);
    assert_eq!(best_mean_index(&sums, &counts), 1);

    let solver = PIMCSolver { rollouts_per_move: 3 };
    let state = state_with(vec![mv(20), mv(30)]);
    let mut eval = CountingEvaluator::new(3);
    let mut rng = StdRng::seed_from_u64(5);
    assert_eq!(solver.select_move(&state, &mut eval, &mut rng), Ok(mv(30)));
}

#[test]
fn aggregation_follows_an_interleaved_mapping() {
    let scores: Vec<i64> = vec![5, -4, 7, 100, i64::MIN, i64::MAX];
    let index: Vec<usize> = vec![2, 0, 2, 1, 0, 0];
    let (sums, counts) = aggregate(&scores, &index, 3);
    assert_eq!(sums, vec![-4 + i64::MIN as i128 + i64::MAX as i128, 100, 12]);
    assert_eq!(counts, vec![3, 1, 2]);
}

#[test]
fn equal_means_pick_lower_index() {
    assert_eq!(best_mean_index(&vec![6, 9, 9], &vec![3, 3, 3]), 1);
    assert_eq!(best_mean_index(&vec![4, 4], &vec![2, 2]), 0);
    let solver = PIMCSolver { rollouts_per_move: 2 };
    let state = state_with(vec![mv(3), mv(8), mv(FINISHING_MOVE_ID)]);
    let mut rng = StdRng::seed_from_u64(6);
    assert_eq!(solver.select_move(&state, &mut ConstantEvaluator, &mut rng), Ok(mv(3)));
}

#[test]
fn negative_scores_pick_the_greatest_mean() {
    assert_eq!(best_mean_index(&vec![-30, -3, -12], &vec![3, 3, 3]), 1);
}

#[test]
fn failing_evaluator_fails_the_decision() {
    let solver = PIMCSolver { rollouts_per_move: 2 };
    let state = state_with(vec![mv(1), mv(2)]);
    let mut rng = StdRng::seed_from_u64(7);
    assert_eq!(
        solver.select_move(&state, &mut FailingEvaluator, &mut rng),
        Err(PimcError::BatchEvaluationFailure)
    );
}

#[test]
fn short_score_list_fails_the_decision() {
    let solver = PIMCSolver { rollouts_per_move: 2 };
    let state = state_with(vec![mv(1), mv(2)]);
    let mut rng = StdRng::seed_from_u64(8);
    assert_eq!(
        solver.select_move(&state, &mut ShortEvaluator, &mut rng),
        Err(PimcError::BatchEvaluationFailure)
    );
}

#[test]
fn choose_from_scores_cases() {
    let moves = vec![mv(1), mv(2)];
    let index = vec![0, 0, 1, 1];
    assert_eq!(
        choose_from_scores(&moves, &index, 2, Err(BatchEvaluationFailure)),
        Err(PimcError::BatchEvaluationFailure)
    );
    assert_eq!(
        choose_from_scores(&moves, &index, 2, Ok(vec![1, 2, 3])),
        Err(PimcError::BatchEvaluationFailure)
    );
    assert_eq!(choose_from_scores(&moves, &index, 2, Ok(vec![1, 2, 3, -1])), Ok(mv(1)));
    assert_eq!(choose_from_scores(&moves, &index, 2, Ok(vec![1, 2, 3, 1])), Ok(mv(2)));
}

fn deal_fixture() -> (Vec<u8>, Vec<usize>) {
    // 24 cards: 4 known to player 0, 2 played (location 9), 18 hidden
    let mut locs = vec![HIDDEN; 24];
    for i in 0..4 {
        locs[i * 5] = 0;
    }
    locs[1] = 9;
    locs[2] = 9;
    (locs, vec![0, 6, 6, 6])
}

fn assert_consistent_deal(locs: &Vec<u8>, vac: &Vec<usize>, dealt: &Vec<u8>) {
    assert_eq!(dealt.len(), locs.len());
    let mut per_player = vec![0usize; NUM_PLAYERS];
    for i in 0..locs.len() {
        if locs[i] == HIDDEN {
            assert!((dealt[i] as usize) < NUM_PLAYERS);
            per_player[dealt[i] as usize] += 1;
        } else {
            assert_eq!(dealt[i], locs[i]);
        }
    }
    assert_eq!(&per_player, vac);
}

#[test]
fn deal_keeps_known_cards_and_fills_hands() {
    let (locs, vac) = deal_fixture();
    let mut rng = StdRng::seed_from_u64(11);
    let dealt = deal_hidden(&locs, &vac, &mut rng);
    assert_consistent_deal(&locs, &vac, &dealt);
}

#[test]
fn deal_is_reproducible_for_a_seed() {
    let (locs, vac) = deal_fixture();
    let a = deal_hidden(&locs, &vac, &mut StdRng::seed_from_u64(12));
    let b = deal_hidden(&locs, &vac, &mut StdRng::seed_from_u64(12));
    assert_eq!(a, b);
}

#[test]
fn deal_differs_across_seeds() {
    let (locs, vac) = deal_fixture();
    let a = deal_hidden(&locs, &vac, &mut StdRng::seed_from_u64(13));
    let b = deal_hidden(&locs, &vac, &mut StdRng::seed_from_u64(14));
    assert_consistent_deal(&locs, &vac, &a);
    assert_consistent_deal(&locs, &vac, &b);
    assert_ne!(a, b);
}

#[test]
fn deal_with_nothing_hidden_is_identity() {
    let locs = vec![0, 1, 2, 3, 9];
    let dealt = deal_hidden(&locs, &vec![0, 0, 0, 0], &mut StdRng::seed_from_u64(15));
    assert_eq!(dealt, locs);
}

#[test]
fn deal_to_a_single_hand() {
    let locs = vec![HIDDEN, 1, HIDDEN, HIDDEN];
    let dealt = deal_hidden(&locs, &vec![0, 0, 3, 0], &mut StdRng::seed_from_u64(16));
    assert_eq!(dealt, vec![2, 1, 2, 2]);
}

#[test]
fn encoding_lays_out_fields() {
    let locs: Vec<u8> = vec![3, 1, 4, 1, 5];
    let rec = encode_record(2, true, &locs).unwrap_or_else(|_| panic!());
    assert_eq!(rec.current_player, 2);
    assert_eq!(rec.is_terminal, 1);
    assert_eq!(&rec.card_data[..5], &[3, 1, 4, 1, 5]);
    assert!(rec.card_data[5..].iter().all(|&b| b == 0));
    let again = encode_record(2, true, &locs).unwrap_or_else(|_| panic!());
    assert_eq!(again.card_data, rec.card_data);
    let open = encode_record(0, false, &vec![]).unwrap_or_else(|_| panic!());
    assert_eq!((open.current_player, open.is_terminal), (0, 0));
}

#[test]
fn encoding_at_capacity_fits() {
    let locs = vec![7u8; CARD_SLOTS];
    let rec = encode_record(3, false, &locs).unwrap_or_else(|_| panic!());
    assert!(rec.card_data.iter().all(|&b| b == 7));
}

#[test]
fn encoding_overflow() {
    let too_many = vec![0u8; CARD_SLOTS + 1];
    assert_eq!(encode_record(0, false, &too_many).err(), Some(EncodeError::EncodingOverflow));
    let wide = (u32::MAX as usize) + 1;
    assert_eq!(encode_record(wide, false, &vec![]).err(), Some(EncodeError::EncodingOverflow));
}

#[test]
fn fake_state_rules() {
    let mut s = FakeMarjaState { turn: 3, done: false, moves: vec![mv(1), mv(FINISHING_MOVE_ID)] };
    assert_eq!(s.legal_moves(), vec![mv(1), mv(FINISHING_MOVE_ID)]);
    s.apply_move(&mv(1));
    assert_eq!(s.current_player(), 0);
    assert!(!s.is_terminal());
    s.apply_move(&mv(FINISHING_MOVE_ID));
    assert!(s.is_terminal());
    assert_eq!(s.legal_moves(), vec![]);
    assert_eq!(s.evaluate_terminal_score(), 42);
}

#[test]
fn draw_maps_to_hand_by_free_places() {
    let rem = vec![2, 0, 3, 1];
    let holders: Vec<usize> = (0..6).map(|s| holder_for_draw(&rem, s)).collect();
    assert_eq!(holders, vec![0, 0, 2, 2, 2, 3]);
    assert_eq!(holder_for_draw(&vec![0, 0, 0, 1], 0), 3);
}

#[test]
fn ordinary_move_wraps_turn_and_keeps_moves() {
    let mut s = FakeMarjaState { turn: 3, done: false, moves: vec![] };
    s.apply_move(&mv(1));
    assert_eq!(s.turn, 0);
    assert!(!s.done);
    assert!(s.moves.is_empty());
}

#[test]
fn finishing_move_keeps_turn() {
    let mut s = FakeMarjaState { turn: 2, done: false, moves: vec![mv(4)] };
    s.apply_move(&mv(FINISHING_MOVE_ID));
    assert_eq!((s.turn, s.done), (2, true));
    assert_eq!(s.moves, vec![mv(4)]);
}

#[test]
fn copy_is_independent() {
    let s = FakeMarjaState { turn: 1, done: false, moves: vec![mv(4), mv(FINISHING_MOVE_ID)] };
    let mut c = s.clone_box();
    assert_eq!((c.turn, c.done), (1, false));
    assert_eq!(c.legal_moves(), s.legal_moves());
    c.apply_move(&mv(FINISHING_MOVE_ID));
    assert!(!s.is_terminal());
    assert!(c.is_terminal());
}

#[test]
fn empty_move_list_builds_empty_batch() {
    let solver = PIMCSolver { rollouts_per_move: 3 };
    let state = state_with(vec![]);
    let mut rng = StdRng::seed_from_u64(17);
    let batch = solver.build_batch(&state, &vec![], &mut rng).unwrap_or_else(|_| panic!());
    assert!(batch.records.is_empty());
    assert!(batch.move_index.is_empty());
}

#[test]
fn raising_a_score_keeps_its_move_picked() {
    let moves = vec![mv(1), mv(2), mv(3)];
    let index = vec![0, 0, 1, 1, 2, 2];
    let before = vec![1, 2, 9, 0, 4, 4];
    assert_eq!(choose_from_scores(&moves, &index, 2, Ok(before)), Ok(mv(2)));
    let after = vec![1, 2, 9, 50, 4, 4];
    assert_eq!(choose_from_scores(&moves, &index, 2, Ok(after)), Ok(mv(2)));
}
