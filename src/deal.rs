use vstd::prelude::*;

verus! {

#[verifier::external_type_specification]
#[verifier::external_body]
pub struct ExStdRng(rand::rngs::StdRng);

/// The number of players at the table.
pub const NUM_PLAYERS: usize = 4;

/// The location byte of a card whose holder is not known.
pub const HIDDEN: u8 = 255;

/// How many of the first `n` locations are hidden.
pub open spec fn hidden_upto(locs: Seq<u8>, n: int) -> int
    decreases n,
{
    if n <= 0 {
        0
    } else {
        hidden_upto(locs, n - 1) + if locs[n - 1] == HIDDEN { 1int } else { 0int }
    }
}

/// How many hidden cards of `locs` the deal `dealt` handed to player `p`.
pub open spec fn dealt_to(locs: Seq<u8>, dealt: Seq<u8>, p: int) -> int
    decreases dealt.len(),
{
    if dealt.len() == 0 {
        0
    } else {
        let i = dealt.len() - 1;
        dealt_to(locs, dealt.drop_last(), p) + if locs[i] == HIDDEN && dealt[i] == p {
            1int
        } else {
            0int
        }
    }
}

/// The free places in the players' hands, summed.
pub open spec fn total_vacancy(vac: Seq<usize>) -> int {
    vac[0] + vac[1] + vac[2] + vac[3]
}

/// A deal is consistent with what was known: known locations are kept, each
/// hidden card goes to a player, and each player gets exactly as many hidden
/// cards as their hand has free places.
pub open spec fn consistent_deal(locs: Seq<u8>, vac: Seq<usize>, dealt: Seq<u8>) -> bool {
    &&& dealt.len() == locs.len()
    &&& forall|i: int| 0 <= i < locs.len() && locs[i] != HIDDEN ==> dealt[i] == locs[i]
    &&& forall|i: int| 0 <= i < locs.len() && locs[i] == HIDDEN ==> dealt[i] < NUM_PLAYERS
    &&& forall|p: int| 0 <= p < NUM_PLAYERS ==> dealt_to(locs, dealt, p) == vac[p]
}

/// The free places of players `0..=p`, summed.
pub open spec fn free_places_through(rem: Seq<usize>, p: int) -> int
    decreases p + 1,
{
    if p < 0 {
        0
    } else {
        free_places_through(rem, p - 1) + rem[p]
    }
}

/// The player who holds free place number `s` when the free places are
/// numbered hand by hand: the first player whose free places, summed with
/// those of the players before, exceed `s`.
pub fn holder_for_draw(rem: &Vec<usize>, s: usize) -> (p: usize)
    requires
        rem.len() == NUM_PLAYERS,
        s < total_vacancy(rem@),
    ensures
        p < NUM_PLAYERS,
        s < free_places_through(rem@, p as int),
        forall|q: int| 0 <= q < p ==> #[trigger] free_places_through(rem@, q) <= s,
{
    proof {
        reveal_with_fuel(free_places_through, 5);
    }
    let mut p: usize = 0;
    let mut acc: usize = 0;
    while rem[p] <= s - acc
        invariant
            rem.len() == NUM_PLAYERS,
            s < total_vacancy(rem@),
            total_vacancy(rem@) == free_places_through(rem@, 3),
            p < NUM_PLAYERS,
            acc <= s,
            acc == free_places_through(rem@, p - 1),
            forall|q: int| 0 <= q < p ==> #[trigger] free_places_through(rem@, q) <= s,
        decreases NUM_PLAYERS - p,
    {
        acc = acc + rem[p];
        proof {
            if p == 3 {
                assert(free_places_through(rem@, 3) == acc);
            }
        }
        p = p + 1;
    }
    p
}

proof fn lemma_hidden_upto_mono(locs: Seq<u8>, a: int, b: int)
    requires
        0 <= a <= b,
    ensures
        hidden_upto(locs, a) <= hidden_upto(locs, b),
    decreases b - a,
{
    if a < b {
        lemma_hidden_upto_mono(locs, a, b - 1);
    }
}

proof fn lemma_hidden_upto_bound(locs: Seq<u8>, n: int)
    requires
        0 <= n,
    ensures
        0 <= hidden_upto(locs, n) <= n,
    decreases n,
{
    if n > 0 {
        lemma_hidden_upto_bound(locs, n - 1);
    }
}

/// Relies on rand::Rng::gen_range: on the non-empty range `0..n` it returns
/// a value below `n` (it panics on an empty range, which `requires` rules out).
#[verifier::external_body]
fn draw_below(rng: &mut rand::rngs::StdRng, n: usize) -> (r: usize)
    requires
        n > 0,
    ensures
        r < n,
{
    rand::Rng::gen_range(rng, 0..n)
}

/// Resolves every hidden card of `locs` to a player, drawing uniformly over
/// the free places left in the hands (through `holder_for_draw`) (`vacancies`, one count per player).
/// Known locations are kept as they are.
pub fn deal_hidden(locs: &Vec<u8>, vacancies: &Vec<usize>, rng: &mut rand::rngs::StdRng) -> (dealt:
    Vec<u8>)
    requires
        vacancies.len() == NUM_PLAYERS,
        total_vacancy(vacancies@) == hidden_upto(locs@, locs.len() as int),
    ensures
        consistent_deal(locs@, vacancies@, dealt@),
{
    let mut rem: Vec<usize> = vacancies.clone();
    let mut dealt: Vec<u8> = Vec::new();
    let n = locs.len();
    let mut i: usize = 0;
    proof {
        lemma_hidden_upto_mono(locs@, 0, n as int);
        lemma_hidden_upto_bound(locs@, n as int);
    }
    while i < n
        invariant
            n == locs.len(),
            i <= n,
            vacancies.len() == NUM_PLAYERS,
            rem.len() == NUM_PLAYERS,
            dealt.len() == i,
            total_vacancy(rem@) + hidden_upto(locs@, i as int) == hidden_upto(locs@, n as int),
            hidden_upto(locs@, n as int) <= n,
            forall|j: int| 0 <= j < i && locs@[j] != HIDDEN ==> dealt@[j] == locs@[j],
            forall|j: int| 0 <= j < i && locs@[j] == HIDDEN ==> dealt@[j] < NUM_PLAYERS,
            forall|p: int|
                0 <= p < NUM_PLAYERS ==> dealt_to(locs@, dealt@, p) + rem@[p] == vacancies@[p],
        decreases n - i,
    {
        let ghost before = dealt@;
        if locs[i] == HIDDEN {
            proof {
                lemma_hidden_upto_mono(locs@, i as int + 1, n as int);
                lemma_hidden_upto_bound(locs@, i as int);
            }
            let total = rem[0] + rem[1] + rem[2] + rem[3];
            let s = draw_below(rng, total);
            let p = holder_for_draw(&rem, s);
            proof {
                if p > 0 {
                    assert(free_places_through(rem@, p - 1) <= s);
                }
            }
            let left = rem[p] - 1;
            rem.set(p, left);
            dealt.push(p as u8);
        } else {
            dealt.push(locs[i]);
        }
        assert(dealt@.drop_last() =~= before);
        i = i + 1;
    }
    dealt
}

} // verus!
