//! This is the entrance point to the move search.
//! It is an alpha-beta pruned negamax algorithm with a transposition table.
//! Alpha-beta pruning is enhanced by heuristically presorting the movement
//! options. The transposition table is enhanced by a canonical board coding
//! that accounts for symmetry.
//!
//! The search is specified by [`search_spec`], a function of the position,
//! the two generations of the transposition table, the search window and the
//! depth. The executable search computes exactly that function; what the
//! function guarantees of its result is proved of it separately.

use crate::board_logic::bit_board::{
    BitBoard, canonical_spec, heuristic_spec, is_full, is_legal_move, is_terminal,
    lemma_apply_revoke, lemma_canonical_mirror, lemma_position_swapped, position_ok,
    SymmetryIndependentPosition,
};
use crate::board_logic::bit_board_coding::{
    check_for_winning, flip_board_spec, FULL_BOARD_MASK, is_stacked, legal_moves,
    lemma_flip_involution, lemma_legal_moves, lemma_moves_keep_stacked, possible_move_spec,
    winning_spec, within_board,
};
use crate::board_logic::score::{
    CLAMP_GUARD_HEURISTIC, discount, discount_spec, is_score, lemma_discount_odd, MAX_SCORE,
    SCORE_GUARD,
};
use std::collections::HashMap;
use vstd::prelude::*;

verus! {

broadcast use vstd::std_specs::hash::group_hash_axioms;

/// The search depth we want to apply.
pub const SEARCH_DEPTH: u32 = 15;

// ---------------------------------------------------------------------------
// Keys of the transposition table
// ---------------------------------------------------------------------------

/// The key of a canonical position in the transposition table: the own
/// stones in the upper half, those of the opponent in the lower.
pub open spec fn table_key_spec(position: SymmetryIndependentPosition) -> u128 {
    ((position.own as u128) << 64) | (position.opp as u128)
}

/// The key under which the table holds the position of `own` and `opp`, the
/// same for a position and its mirror image.
pub open spec fn position_key(own: u64, opp: u64) -> u128 {
    table_key_spec(canonical_spec(own, opp))
}

/// Computes the key of a canonical position in the transposition table.
pub fn table_key(position: &SymmetryIndependentPosition) -> (key: u128)
    ensures
        key == table_key_spec(*position),
{
    ((position.own as u128) << 64) | (position.opp as u128)
}

/// Different canonical positions have different keys.
pub proof fn lemma_table_key_injective(
    first: SymmetryIndependentPosition,
    second: SymmetryIndependentPosition,
)
    requires
        table_key_spec(first) == table_key_spec(second),
    ensures
        first == second,
{
    let a = first.own;
    let b = first.opp;
    let c = second.own;
    let d = second.opp;
    assert(a == c && b == d) by (bit_vector)
        requires
            ((a as u128) << 64) | (b as u128) == ((c as u128) << 64) | (d as u128),
    ;
}

/// A position and its mirror image have the same key.
pub proof fn lemma_position_key_mirror(own: u64, opp: u64)
    requires
        within_board(own),
        within_board(opp),
    ensures
        position_key(flip_board_spec(own), flip_board_spec(opp)) == position_key(own, opp),
{
    lemma_canonical_mirror(own, opp);
}

/// Two positions with the same key are the same position or mirror images
/// of each other: the table confuses nothing else.
pub proof fn lemma_position_key_sound(own: u64, opp: u64, other_own: u64, other_opp: u64)
    requires
        within_board(own),
        within_board(opp),
        within_board(other_own),
        within_board(other_opp),
        position_key(own, opp) == position_key(other_own, other_opp),
    ensures
        (own == other_own && opp == other_opp) || (own == flip_board_spec(other_own) && opp
            == flip_board_spec(other_opp)),
{
    lemma_table_key_injective(canonical_spec(own, opp), canonical_spec(other_own, other_opp));
    lemma_flip_involution(own);
    lemma_flip_involution(opp);
    lemma_flip_involution(other_own);
    lemma_flip_involution(other_opp);
}

/// Every value of the table is a score.
pub open spec fn table_bounded(table: Map<u128, i64>) -> bool {
    forall|key: u128| table.contains_key(key) ==> is_score(#[trigger] table[key] as int)
}

// ---------------------------------------------------------------------------
// The working list
// ---------------------------------------------------------------------------

/// The working list are the elements of what we need to do.
#[derive(Clone, Copy, Debug)]
pub struct WorkingListEntry {
    /// The coded move is the bit set at where the stone needs to go.
    pub coded_move: u64,
    /// This is the slot index that has been chosen.
    pub slot: u32,
    /// The initial estimate of the move value, to make the choice on where
    /// to go.
    pub evaluation: i64,
}

/// A result we get for the presorting. The presort result is used for move
/// ordering to help the alpha-beta clip. Found end games and some of the
/// table look-ups are already filtered out at this stage.
pub struct PresortResult {
    /// The maximum score we have reached on precached moves and winnings.
    pub max_score: i64,
    /// The move that belongs to the best score.
    pub best_move: Option<u32>,
    /// The list with the remainder we still have to process.
    pub working_list: Vec<WorkingListEntry>,
}

/// A move that waits for a full search, with the estimate that orders it.
pub struct QueuedMove {
    pub coded_move: u64,
    pub slot: u32,
    pub evaluation: int,
}

/// What the presorting of the moves of a position gives.
pub struct Presorted {
    pub max_score: int,
    pub best_move: Option<u32>,
    pub queue: Seq<QueuedMove>,
}

impl View for WorkingListEntry {
    type V = QueuedMove;

    open spec fn view(&self) -> QueuedMove {
        QueuedMove {
            coded_move: self.coded_move,
            slot: self.slot,
            evaluation: self.evaluation as int,
        }
    }
}

/// The moves of a working list.
pub open spec fn queue_of(list: Seq<WorkingListEntry>) -> Seq<QueuedMove> {
    list.map_values(|entry: WorkingListEntry| entry@)
}

impl View for PresortResult {
    type V = Presorted;

    open spec fn view(&self) -> Presorted {
        Presorted {
            max_score: self.max_score as int,
            best_move: self.best_move,
            queue: queue_of(self.working_list@),
        }
    }
}

/// `entry` put into a list that is in descending order of the estimates:
/// behind the entries that are at least as good, before the others.
pub open spec fn insert_descending(sorted: Seq<QueuedMove>, entry: QueuedMove) -> Seq<QueuedMove>
    decreases sorted.len(),
{
    if sorted.len() == 0 {
        seq![entry]
    } else if sorted.last().evaluation >= entry.evaluation {
        sorted.push(entry)
    } else {
        insert_descending(sorted.drop_last(), entry).push(sorted.last())
    }
}

/// The list in descending order of the estimates. Entries with the same
/// estimate keep the order that they had.
pub open spec fn sort_descending(list: Seq<QueuedMove>) -> Seq<QueuedMove>
    decreases list.len(),
{
    if list.len() == 0 {
        Seq::empty()
    } else {
        insert_descending(sort_descending(list.drop_last()), list.last())
    }
}

/// The estimates of the list do not rise.
pub open spec fn is_descending(list: Seq<QueuedMove>) -> bool {
    forall|i: int, j: int| 0 <= i < j < list.len() ==> list[i].evaluation >= list[j].evaluation
}

/// Inserting keeps the order, and adds the entry to what the list holds.
pub proof fn lemma_insert_descending(sorted: Seq<QueuedMove>, entry: QueuedMove)
    requires
        is_descending(sorted),
    ensures
        is_descending(insert_descending(sorted, entry)),
        insert_descending(sorted, entry).to_multiset() == sorted.to_multiset().insert(entry),
        insert_descending(sorted, entry).len() == sorted.len() + 1,
    decreases sorted.len(),
{
    broadcast use vstd::seq_lib::group_to_multiset_ensures;

    let result = insert_descending(sorted, entry);
    if sorted.len() == 0 {
        assert(seq![entry] =~= Seq::<QueuedMove>::empty().push(entry));
        assert(sorted =~= Seq::<QueuedMove>::empty());
    } else if sorted.last().evaluation >= entry.evaluation {
    } else {
        let front = sorted.drop_last();
        lemma_insert_descending(front, entry);
        let inner = insert_descending(front, entry);
        assert(sorted =~= front.push(sorted.last()));
        assert forall|i: int, j: int| 0 <= i < j < result.len() implies result[i].evaluation
            >= result[j].evaluation by {
            if j == result.len() - 1 {
                // Every entry of `inner` is the new one or one of `front`.
                assert(inner.to_multiset().count(inner[i]) > 0);
                if inner[i] != entry {
                    assert(front.to_multiset().count(inner[i]) > 0);
                    let k = choose|k: int| 0 <= k < front.len() && front[k] == inner[i];
                    assert(sorted[k].evaluation >= sorted[sorted.len() - 1].evaluation);
                }
            }
        }
    }
}

/// Sorting gives a list in descending order that holds what the list held.
pub proof fn lemma_sort_descending(list: Seq<QueuedMove>)
    ensures
        is_descending(sort_descending(list)),
        sort_descending(list).to_multiset() == list.to_multiset(),
        sort_descending(list).len() == list.len(),
    decreases list.len(),
{
    broadcast use vstd::seq_lib::group_to_multiset_ensures;

    if list.len() > 0 {
        lemma_sort_descending(list.drop_last());
        lemma_insert_descending(sort_descending(list.drop_last()), list.last());
        assert(list =~= list.drop_last().push(list.last()));
    }
}

/// What a sorted list holds, the list held, and the other way round.
pub proof fn lemma_sort_same_entries(list: Seq<QueuedMove>)
    ensures
        forall|i: int|
            0 <= i < sort_descending(list).len() ==> list.contains(
                #[trigger] sort_descending(list)[i],
            ),
        forall|i: int| 0 <= i < list.len() ==> sort_descending(list).contains(#[trigger] list[i]),
{
    broadcast use vstd::seq_lib::group_to_multiset_ensures;

    lemma_sort_descending(list);
    let sorted = sort_descending(list);
    assert forall|i: int| 0 <= i < sorted.len() implies list.contains(#[trigger] sorted[i]) by {
        assert(sorted.to_multiset().count(sorted[i]) > 0);
        assert(list.to_multiset().count(sorted[i]) > 0);
    }
    assert forall|i: int| 0 <= i < list.len() implies sorted.contains(#[trigger] list[i]) by {
        assert(list.to_multiset().count(list[i]) > 0);
        assert(sorted.to_multiset().count(list[i]) > 0);
    }
}

/// Where in a sorted list a new entry goes: behind the last entry that is at
/// least as good.
proof fn lemma_insert_position(sorted: Seq<QueuedMove>, entry: QueuedMove, position: int)
    requires
        0 <= position <= sorted.len(),
        forall|i: int| position <= i < sorted.len() ==> sorted[i].evaluation < entry.evaluation,
        position > 0 ==> sorted[position - 1].evaluation >= entry.evaluation,
    ensures
        insert_descending(sorted, entry) == sorted.insert(position, entry),
    decreases sorted.len(),
{
    if sorted.len() == 0 {
        assert(sorted.insert(0, entry) =~= seq![entry]);
    } else if position == sorted.len() {
        assert(sorted.insert(position, entry) =~= sorted.push(entry));
    } else {
        let front = sorted.drop_last();
        lemma_insert_position(front, entry, position);
        assert(sorted.insert(position, entry) =~= front.insert(position, entry).push(
            sorted.last(),
        ));
    }
}

/// Does the inverse sort of a working list: descending order of the
/// evaluations, and of two entries with the same evaluation first the one
/// that stood first.
pub fn sort_working_list(list: Vec<WorkingListEntry>) -> (sorted: Vec<WorkingListEntry>)
    ensures
        queue_of(sorted@) == sort_descending(queue_of(list@)),
{
    let mut sorted: Vec<WorkingListEntry> = Vec::new();
    let mut i: usize = 0;
    assert(queue_of(list@).take(0) =~= Seq::<QueuedMove>::empty());
    assert(queue_of(sorted@) =~= Seq::<QueuedMove>::empty());
    while i < list.len()
        invariant
            i <= list.len(),
            sorted.len() == i,
            queue_of(sorted@) == sort_descending(queue_of(list@).take(i as int)),
        decreases list.len() - i,
    {
        let entry = list[i];
        let mut position: usize = sorted.len();
        while position > 0 && sorted[position - 1].evaluation < entry.evaluation
            invariant
                position <= sorted.len(),
                forall|k: int|
                    position <= k < sorted.len() ==> sorted[k].evaluation < entry.evaluation,
            decreases position,
        {
            position -= 1;
        }
        proof {
            let before = queue_of(sorted@);
            lemma_insert_position(before, entry@, position as int);
            let longer = queue_of(list@).take(i + 1);
            assert(longer.drop_last() =~= queue_of(list@).take(i as int));
            assert(longer.last() == entry@);
            assert(queue_of(sorted@.insert(position as int, entry)) =~= before.insert(
                position as int,
                entry@,
            ));
        }
        sorted.insert(position, entry);
        i += 1;
    }
    assert(queue_of(list@).take(list.len() as int) =~= queue_of(list@));
    sorted
}

// ---------------------------------------------------------------------------
// Presorting, as a function
// ---------------------------------------------------------------------------

/// Before any move is looked at: nothing found, nothing queued.
pub open spec fn presort_start() -> Presorted {
    Presorted { max_score: SCORE_GUARD as int, best_move: None, queue: Seq::empty() }
}

/// The estimate that orders a queued move: the negated value that the
/// previous generation of the table holds for the position after the move,
/// where it holds one, and the heuristic estimate otherwise.
pub open spec fn ordering_estimate(own_after: u64, opp: u64, previous: Map<u128, i64>) -> int {
    if previous.contains_key(position_key(opp, own_after)) {
        -previous[position_key(opp, own_after)]
    } else {
        heuristic_spec(own_after, opp, CLAMP_GUARD_HEURISTIC as int)
    }
}

/// Classifies one move, given as its mask and its column:
///
/// 1. An immediate win is the best there is.
/// 2. A move that fills the board is a draw, and the best so far if
///    everything before it loses.
/// 3. A move into a position that this search has valued already has the
///    negative of that value, and is the best so far if it beats it.
/// 4. Any other move is queued for a full search.
pub open spec fn presort_step(
    own: u64,
    opp: u64,
    current: Map<u128, i64>,
    previous: Map<u128, i64>,
    so_far: Presorted,
    candidate: (u64, u32),
) -> Presorted {
    let own_after = own | candidate.0;
    let key = position_key(opp, own_after);
    if winning_spec(own_after) {
        Presorted {
            max_score: MAX_SCORE as int,
            best_move: Some(candidate.1),
            queue: so_far.queue,
        }
    } else if is_full(own_after, opp) {
        if so_far.max_score < 0 {
            Presorted { max_score: 0, best_move: Some(candidate.1), queue: so_far.queue }
        } else {
            so_far
        }
    } else if current.contains_key(key) {
        if -current[key] > so_far.max_score {
            Presorted {
                max_score: -current[key],
                best_move: Some(candidate.1),
                queue: so_far.queue,
            }
        } else {
            so_far
        }
    } else {
        Presorted {
            max_score: so_far.max_score,
            best_move: so_far.best_move,
            queue: so_far.queue.push(
                QueuedMove {
                    coded_move: candidate.0,
                    slot: candidate.1,
                    evaluation: ordering_estimate(own_after, opp, previous),
                },
            ),
        }
    }
}

/// The first `count` of the moves classified, one after the other.
pub open spec fn presort_fold(
    own: u64,
    opp: u64,
    current: Map<u128, i64>,
    previous: Map<u128, i64>,
    moves: Seq<(u64, u32)>,
    count: int,
) -> Presorted
    decreases count,
{
    if count <= 0 {
        presort_start()
    } else {
        presort_step(
            own,
            opp,
            current,
            previous,
            presort_fold(own, opp, current, previous, moves, count - 1),
            moves[count - 1],
        )
    }
}

/// The legal moves of the position classified in ascending order of their
/// columns, and the queued ones sorted, the most promising first.
pub open spec fn presort_spec(
    own: u64,
    opp: u64,
    current: Map<u128, i64>,
    previous: Map<u128, i64>,
) -> Presorted {
    let classified = presort_fold(
        own,
        opp,
        current,
        previous,
        legal_moves(own | opp),
        legal_moves(own | opp).len() as int,
    );
    Presorted {
        max_score: classified.max_score,
        best_move: classified.best_move,
        queue: sort_descending(classified.queue),
    }
}

/// `column` offers a move, and with it the own side has four in a line.
pub open spec fn wins_at_once(own: u64, opp: u64, column: int) -> bool {
    &&& 0 <= column < 7
    &&& possible_move_spec(own | opp, column) != 0
    &&& winning_spec(own | possible_move_spec(own | opp, column))
}

/// `column` offers a move.
pub open spec fn is_open_column(own: u64, opp: u64, column: int) -> bool {
    0 <= column < 7 && possible_move_spec(own | opp, column) != 0
}

/// A queued move is a legal move that ends the game neither by a win nor by
/// filling the board, and its estimate is a score.
pub open spec fn is_sound_entry(own: u64, opp: u64, entry: QueuedMove) -> bool {
    &&& is_open_column(own, opp, entry.slot as int)
    &&& entry.coded_move == possible_move_spec(own | opp, entry.slot as int)
    &&& !winning_spec(own | entry.coded_move)
    &&& !is_full(own | entry.coded_move, opp)
    &&& is_score(entry.evaluation)
}

/// What holds of a presorting, whether sorted yet or not.
pub open spec fn presorted_sound(own: u64, opp: u64, presorted: Presorted, seen: int) -> bool {
    &&& SCORE_GUARD <= presorted.max_score <= MAX_SCORE
    &&& match presorted.best_move {
        Some(slot) => is_open_column(own, opp, slot as int) && is_score(presorted.max_score),
        None => presorted.max_score == SCORE_GUARD,
    }
    &&& forall|i: int|
        0 <= i < presorted.queue.len() ==> is_sound_entry(own, opp, #[trigger] presorted.queue[i])
    &&& seen > 0 ==> presorted.best_move is Some || presorted.queue.len() > 0
}

/// The best move is an immediate win, valued as one.
pub open spec fn presorted_win(own: u64, opp: u64, presorted: Presorted) -> bool {
    presorted.max_score == MAX_SCORE && presorted.best_move is Some && wins_at_once(
        own,
        opp,
        presorted.best_move.unwrap() as int,
    )
}

/// The classification of the first `count` legal moves of a sound position
/// is sound, and has found an immediate win if there is one among them.
pub proof fn lemma_presort_fold(
    own: u64,
    opp: u64,
    current: Map<u128, i64>,
    previous: Map<u128, i64>,
    count: int,
)
    requires
        position_ok(own, opp),
        table_bounded(current),
        table_bounded(previous),
        0 <= count <= legal_moves(own | opp).len(),
    ensures
        presorted_sound(
            own,
            opp,
            presort_fold(own, opp, current, previous, legal_moves(own | opp), count),
            count,
        ),
        (exists|i: int|
            0 <= i < count && winning_spec(own | (#[trigger] legal_moves(own | opp)[i]).0))
            ==> presorted_win(
            own,
            opp,
            presort_fold(own, opp, current, previous, legal_moves(own | opp), count),
        ),
    decreases count,
{
    let moves = legal_moves(own | opp);
    lemma_legal_moves(own | opp);
    if count > 0 {
        lemma_presort_fold(own, opp, current, previous, count - 1);
        let so_far = presort_fold(own, opp, current, previous, moves, count - 1);
        let candidate = moves[count - 1];
        let result = presort_step(own, opp, current, previous, so_far, candidate);
        let own_after = own | candidate.0;
        assert(is_open_column(own, opp, candidate.1 as int));
        if exists|i: int| 0 <= i < count && winning_spec(own | (#[trigger] moves[i]).0) {
            let i = choose|i: int| 0 <= i < count && winning_spec(own | (#[trigger] moves[i]).0);
            if i < count - 1 {
                assert(presorted_win(own, opp, so_far));
            }
        }
    }
}

/// The presorting of a sound position is sound, and has found an immediate
/// win if there is one.
pub proof fn lemma_presort(own: u64, opp: u64, current: Map<u128, i64>, previous: Map<u128, i64>)
    requires
        position_ok(own, opp),
        table_bounded(current),
        table_bounded(previous),
    ensures
        presorted_sound(
            own,
            opp,
            presort_spec(own, opp, current, previous),
            legal_moves(own | opp).len() as int,
        ),
        (exists|column: int| wins_at_once(own, opp, column)) ==> presorted_win(
            own,
            opp,
            presort_spec(own, opp, current, previous),
        ),
        !is_full(own, opp) ==> legal_moves(own | opp).len() > 0,
{
    let moves = legal_moves(own | opp);
    let count = moves.len() as int;
    lemma_presort_fold(own, opp, current, previous, count);
    let classified = presort_fold(own, opp, current, previous, moves, count);
    lemma_sort_same_entries(classified.queue);
    lemma_sort_descending(classified.queue);
    let sorted = sort_descending(classified.queue);
    assert forall|i: int| 0 <= i < sorted.len() implies is_sound_entry(
        own,
        opp,
        #[trigger] sorted[i],
    ) by {
        assert(classified.queue.contains(sorted[i]));
    }
    lemma_legal_moves(own | opp);
    if exists|column: int| wins_at_once(own, opp, column) {
        let column = choose|column: int| wins_at_once(own, opp, column);
        let entry = (possible_move_spec(own | opp, column), column as u32);
        assert(moves.contains(entry));
        let i = choose|i: int| 0 <= i < moves.len() && moves[i] == entry;
        assert(winning_spec(own | moves[i].0));
    }
    if !is_full(own, opp) {
        lemma_some_column_open(own | opp);
        let column = choose|column: int|
            0 <= column < 7 && possible_move_spec(own | opp, column) != 0;
        assert(moves.contains((possible_move_spec(own | opp, column), column as u32)));
    }
}

/// A stacked board that is not full has a column that offers a move.
pub proof fn lemma_some_column_open(board: u64)
    requires
        is_stacked(board),
        board != FULL_BOARD_MASK,
    ensures
        exists|column: int| 0 <= column < 7 && #[trigger] possible_move_spec(board, column) != 0,
{
    lemma_moves_keep_stacked(board, 0);
    if possible_move_spec(board, 0) != 0 {
    } else if possible_move_spec(board, 1) != 0 {
    } else if possible_move_spec(board, 2) != 0 {
    } else if possible_move_spec(board, 3) != 0 {
    } else if possible_move_spec(board, 4) != 0 {
    } else if possible_move_spec(board, 5) != 0 {
    } else {
        assert(possible_move_spec(board, 6) != 0);
    }
}

// ---------------------------------------------------------------------------
// The search, as a function
// ---------------------------------------------------------------------------

/// What the search of a position gives: its value, the column of the move
/// chosen, where one was chosen, and the current generation of the
/// transposition table after the search.
pub struct SearchOutcome {
    pub value: int,
    pub column: Option<u32>,
    pub table: Map<u128, i64>,
}

/// The running state of the search through the queued moves of a position.
pub struct SearchState {
    pub alpha: int,
    pub best_value: int,
    pub best_slot: u32,
    pub table: Map<u128, i64>,
}

/// The value of a position for the side to move, with the own stones `own`,
/// within the window from `alpha` to `beta`, `depth` plies below the root of
/// a search that looks `limit` plies ahead.
///
/// 1. A position that the current generation of the table holds has the
///    value found there.
/// 2. At the depth limit the position has the estimate `heuristics` that the
///    caller hands down.
/// 3. Otherwise the moves are presorted. If what the presorting found is at
///    least `beta`, the search is cut off there.
/// 4. Otherwise the queued moves are searched one by one, see
///    [`search_queue_spec`].
///
/// In both of the last cases the value goes into the table.
pub open spec fn search_spec(
    own: u64,
    opp: u64,
    current: Map<u128, i64>,
    previous: Map<u128, i64>,
    alpha: int,
    beta: int,
    heuristics: int,
    depth: nat,
    limit: nat,
) -> SearchOutcome
    decreases limit - depth, 1nat, 0nat,
{
    let key = position_key(own, opp);
    if current.contains_key(key) {
        SearchOutcome { value: current[key] as int, column: None, table: current }
    } else if depth >= limit {
        SearchOutcome { value: heuristics, column: None, table: current }
    } else {
        let presorted = presort_spec(own, opp, current, previous);
        let start = start_state(presorted, alpha, current);
        if start.best_value > alpha && start.best_value >= beta {
            SearchOutcome {
                value: start.best_value,
                column: Some(start.best_slot),
                table: current.insert(key, start.best_value as i64),
            }
        } else {
            let end = search_queue_spec(
                own,
                opp,
                previous,
                presorted.queue,
                0,
                start,
                beta,
                depth,
                limit,
            );
            SearchOutcome {
                value: end.best_value,
                column: Some(end.best_slot),
                table: end.table.insert(key, end.best_value as i64),
            }
        }
    }
}

/// The state in which the search through the queue begins: the best that
/// the presorting found, if it found anything, and `alpha` raised to it.
pub open spec fn start_state(presorted: Presorted, alpha: int, current: Map<u128, i64>)
    -> SearchState {
    let best_value = if presorted.best_move is Some {
        presorted.max_score
    } else {
        SCORE_GUARD as int
    };
    SearchState {
        alpha: if best_value > alpha {
            best_value
        } else {
            alpha
        },
        best_value: best_value,
        best_slot: if presorted.best_move is Some {
            presorted.best_move.unwrap()
        } else {
            0
        },
        table: current,
    }
}

/// The value that a queued move has for the side that makes it: the
/// negative of the value that the position after the move has for the
/// opponent within the negated window, discounted by one ply.
pub open spec fn move_value(
    own: u64,
    opp: u64,
    previous: Map<u128, i64>,
    entry: QueuedMove,
    state: SearchState,
    beta: int,
    depth: nat,
    limit: nat,
) -> SearchOutcome
    decreases limit - depth, 0nat, 0nat,
{
    if depth >= limit {
        SearchOutcome { value: 0, column: None, table: state.table }
    } else {
        let child = search_spec(
            opp,
            own | entry.coded_move,
            state.table,
            previous,
            -beta,
            -state.alpha,
            -entry.evaluation,
            depth + 1,
            limit,
        );
        SearchOutcome {
            value: discount_spec(-child.value),
            column: Some(entry.slot),
            table: child.table,
        }
    }
}

/// The state after a queued move was searched: a value above the best so
/// far becomes the best, and raises `alpha` if it is above it.
pub open spec fn next_state(state: SearchState, searched: SearchOutcome, slot: u32)
    -> SearchState {
    if searched.value > state.best_value {
        SearchState {
            alpha: if searched.value > state.alpha {
                searched.value
            } else {
                state.alpha
            },
            best_value: searched.value,
            best_slot: slot,
            table: searched.table,
        }
    } else {
        SearchState {
            alpha: state.alpha,
            best_value: state.best_value,
            best_slot: state.best_slot,
            table: searched.table,
        }
    }
}

/// The search through the queued moves from the one at `index` on. It ends
/// behind the last move, or behind the first whose value is above `beta`.
pub open spec fn search_queue_spec(
    own: u64,
    opp: u64,
    previous: Map<u128, i64>,
    queue: Seq<QueuedMove>,
    index: nat,
    state: SearchState,
    beta: int,
    depth: nat,
    limit: nat,
) -> SearchState
    decreases limit - depth, 0nat, queue.len() - index,
{
    if index >= queue.len() || depth >= limit {
        state
    } else {
        let entry = queue[index as int];
        let searched = move_value(own, opp, previous, entry, state, beta, depth, limit);
        let next = next_state(state, searched, entry.slot);
        if searched.value > beta {
            next
        } else {
            search_queue_spec(own, opp, previous, queue, index + 1, next, beta, depth, limit)
        }
    }
}

/// At the depth limit a position and the same position seen from the other
/// side have values that are the negatives of each other, where the search
/// window of the one is the negated window of the other and its estimate the
/// negative of the other's, as the search hands them down, and where the
/// table holds neither.
pub proof fn lemma_leaf_values_negated(
    own: u64,
    opp: u64,
    current: Map<u128, i64>,
    previous: Map<u128, i64>,
    alpha: int,
    beta: int,
    heuristics: int,
    limit: nat,
)
    requires
        !current.contains_key(position_key(own, opp)),
        !current.contains_key(position_key(opp, own)),
    ensures
        search_spec(opp, own, current, previous, -beta, -alpha, -heuristics, limit, limit).value
            == -search_spec(
            own,
            opp,
            current,
            previous,
            alpha,
            beta,
            heuristics,
            limit,
            limit,
        ).value,
{
}

/// The negamax step: the value that a queued move has for the side that
/// makes it is the negative of the value that the position after the move
/// has for the other side, within the negated window and with the negated
/// estimate, up to the discount of one ply.
pub proof fn lemma_negamax_step(
    own: u64,
    opp: u64,
    previous: Map<u128, i64>,
    entry: QueuedMove,
    state: SearchState,
    beta: int,
    depth: nat,
    limit: nat,
)
    requires
        depth < limit,
    ensures
        move_value(own, opp, previous, entry, state, beta, depth, limit).value == -discount_spec(
            search_spec(
                opp,
                own | entry.coded_move,
                state.table,
                previous,
                -beta,
                -state.alpha,
                -entry.evaluation,
                depth + 1,
                limit,
            ).value,
        ),
{
    lemma_discount_odd(
        search_spec(
            opp,
            own | entry.coded_move,
            state.table,
            previous,
            -beta,
            -state.alpha,
            -entry.evaluation,
            depth + 1,
            limit,
        ).value,
    );
}

/// What a search from the root gives: the full window, no estimate, and an
/// empty current generation of the table.
pub open spec fn best_move_spec(own: u64, opp: u64, previous: Map<u128, i64>, limit: nat)
    -> SearchOutcome {
    search_spec(
        own,
        opp,
        Map::<u128, i64>::empty(),
        previous,
        -MAX_SCORE as int,
        MAX_SCORE as int,
        0,
        0,
        limit,
    )
}

/// Where the side to move can win at once, a search from the root finds
/// that out whatever its depth: the value is that of a certain win, and the
/// move of the column chosen wins.
pub proof fn lemma_immediate_win(own: u64, opp: u64, previous: Map<u128, i64>, limit: nat)
    requires
        position_ok(own, opp),
        table_bounded(previous),
        limit >= 1,
        exists|column: int| wins_at_once(own, opp, column),
    ensures
        best_move_spec(own, opp, previous, limit).value == MAX_SCORE,
        best_move_spec(own, opp, previous, limit).column is Some,
        wins_at_once(own, opp, best_move_spec(own, opp, previous, limit).column.unwrap() as int),
{
    lemma_presort(own, opp, Map::<u128, i64>::empty(), previous);
}

// ---------------------------------------------------------------------------
// The engine
// ---------------------------------------------------------------------------

/// Contains a bit board and two hash maps. One for the current move and one
/// recycled from the previous one.
pub struct AlphaBeta {
    /// The bit board we play with.
    bit_board: BitBoard,
    /// The hash map of the current generation.
    hash_map: HashMap<u128, i64>,
    /// The hash map of the previous move / generation. It may not be used
    /// any more for position look up but for heuristical evaluation in move
    /// ordering.
    hash_map_old: HashMap<u128, i64>,
    /// The number of plies the search looks ahead.
    search_depth: u32,
}

impl AlphaBeta {
    /// The position under analysis.
    pub closed spec fn board(&self) -> BitBoard {
        self.bit_board
    }

    /// The current generation of the transposition table.
    pub closed spec fn current(&self) -> Map<u128, i64> {
        self.hash_map@
    }

    /// The previous generation of the transposition table.
    pub closed spec fn previous(&self) -> Map<u128, i64> {
        self.hash_map_old@
    }

    /// The number of plies the search looks ahead.
    pub closed spec fn depth_limit(&self) -> u32 {
        self.search_depth
    }

    /// Both generations of the table hold scores only.
    pub open spec fn tables_bounded(&self) -> bool {
        table_bounded(self.current()) && table_bounded(self.previous())
    }

    /// The engine is between two searches: the current generation of the
    /// table is empty, the previous one holds scores only, and the search
    /// looks at least one ply ahead.
    pub open spec fn wf(&self) -> bool {
        &&& self.current() == Map::<u128, i64>::empty()
        &&& table_bounded(self.previous())
        &&& self.depth_limit() >= 1
    }

    /// The position under analysis is one that a search can start from: it
    /// is sound, not lost for the side to move, and not full.
    pub open spec fn searchable(&self) -> bool {
        &&& self.board().wf()
        &&& !winning_spec(self.board().opponent_stones)
        &&& !is_full(self.board().own_stones, self.board().opponent_stones)
    }

    /// An engine with the empty board and empty tables that looks
    /// [`SEARCH_DEPTH`] plies ahead.
    pub fn new() -> (engine: AlphaBeta)
        ensures
            engine.wf(),
            engine.board().own_stones == 0,
            engine.board().opponent_stones == 0,
            !engine.board().computer_first,
            engine.previous() == Map::<u128, i64>::empty(),
            engine.depth_limit() == SEARCH_DEPTH,
    {
        AlphaBeta {
            bit_board: BitBoard::new(),
            hash_map: HashMap::new(),
            hash_map_old: HashMap::new(),
            search_depth: SEARCH_DEPTH,
        }
    }

    /// An engine with the empty board and empty tables that looks
    /// `search_depth` plies ahead.
    pub fn with_search_depth(search_depth: u32) -> (engine: AlphaBeta)
        requires
            search_depth >= 1,
        ensures
            engine.wf(),
            engine.board().own_stones == 0,
            engine.board().opponent_stones == 0,
            !engine.board().computer_first,
            engine.previous() == Map::<u128, i64>::empty(),
            engine.depth_limit() == search_depth,
    {
        AlphaBeta {
            bit_board: BitBoard::new(),
            hash_map: HashMap::new(),
            hash_map_old: HashMap::new(),
            search_depth,
        }
    }

    /// Looks a key up in a generation of the table.
    fn look_up(table: &HashMap<u128, i64>, key: u128) -> (found: Option<i64>)
        ensures
            match found {
                Some(value) => table@.contains_key(key) && table@[key] == value,
                None => !table@.contains_key(key),
            },
    {
        match table.get(&key) {
            Some(value) => Some(*value),
            None => None,
        }
    }

    /// Generates the list of the moves that need a full search, each with
    /// its coded move, its slot and an estimate of its value, sorted by the
    /// estimate in descending order. This can be used to scan the options in
    /// an efficient way for alpha-beta. Moves that end the game, and moves
    /// into positions that the current generation of the table holds, do not
    /// enter the list: the best of them is returned beside it.
    fn get_pre_sorted_move_list(&self) -> (result: PresortResult)
        requires
            self.board().wf(),
            !winning_spec(self.board().opponent_stones),
            self.tables_bounded(),
        ensures
            result@ == presort_spec(
                self.board().own_stones,
                self.board().opponent_stones,
                self.current(),
                self.previous(),
            ),
    {
        let mut local_max: i64 = SCORE_GUARD;
        let mut local_move: Option<u32> = None;
        let mut test_board = self.bit_board;
        let mut local_sorter: Vec<WorkingListEntry> = Vec::new();
        let ghost own = self.bit_board.own_stones;
        let ghost opp = self.bit_board.opponent_stones;

        let moves = self.bit_board.get_all_possible_moves();
        let mut i: usize = 0;
        assert(queue_of(local_sorter@) =~= Seq::<QueuedMove>::empty());
        while i < moves.len()
            invariant
                i <= moves.len(),
                moves@ == legal_moves(own | opp),
                own == self.bit_board.own_stones,
                opp == self.bit_board.opponent_stones,
                position_ok(own, opp),
                !winning_spec(opp),
                self.tables_bounded(),
                test_board == self.bit_board,
                (Presorted {
                    max_score: local_max as int,
                    best_move: local_move,
                    queue: queue_of(local_sorter@),
                }) == presort_fold(own, opp, self.current(), self.previous(), moves@, i as int),
            decreases moves.len() - i,
        {
            let (coded_move, slot) = moves[i];
            let ghost so_far = presort_fold(
                own,
                opp,
                self.current(),
                self.previous(),
                moves@,
                i as int,
            );
            proof {
                lemma_legal_moves(own | opp);
                assert(is_legal_move(own, opp, moves@[i as int].0));
                lemma_apply_revoke(own, opp, coded_move);
                lemma_presort_fold(own, opp, self.current(), self.previous(), i as int);
            }
            // Test execute the move.
            test_board.own_stones |= coded_move;
            // First we try the immediate situations, because it is a win
            // or a draw.
            if check_for_winning(test_board.own_stones) {
                local_max = MAX_SCORE;
                local_move = Some(slot);
            } else if (test_board.own_stones | test_board.opponent_stones) == FULL_BOARD_MASK {
                if local_max < 0 {
                    local_max = 0;
                    local_move = Some(slot);
                }
            } else {
                // Swap the players to get the values, because we encoded
                // the player from the follow up move.
                test_board.swap_players();
                let search_key = table_key(&test_board.get_symmetry_independent_position());
                test_board.swap_players();

                // See if it is in the current transposition table. If we
                // found it here, we can insert the result and do not need to
                // analyze the node any further.
                match Self::look_up(&self.hash_map, search_key) {
                    Some(evaluation) => {
                        let score = -evaluation;
                        if score > local_max {
                            local_max = score;
                            local_move = Some(slot);
                        }
                    },
                    None => {
                        // Hopefully it is still in the transposition table
                        // from last move. In this case we take this as a
                        // heuristic evaluation. Otherwise we have to apply
                        // our heuristics.
                        let evaluation = match Self::look_up(&self.hash_map_old, search_key) {
                            Some(evaluation) => -evaluation,
                            None => test_board.compute_heuristics(CLAMP_GUARD_HEURISTIC),
                        };
                        let entry = WorkingListEntry { coded_move, slot, evaluation };
                        assert(queue_of(local_sorter@.push(entry)) =~= queue_of(
                            local_sorter@,
                        ).push(entry@));
                        local_sorter.push(entry);
                    },
                }
            }
            // Retake move.
            test_board.own_stones ^= coded_move;
            i += 1;
        }

        // Do the inverse sort (descending order).
        let working_list = sort_working_list(local_sorter);

        PresortResult { working_list, max_score: local_max, best_move: local_move }
    }

    /// Evaluates the next move and returns the value of the position and
    /// the move chosen. This is the implementation of the negamax algorithm.
    ///
    /// # Parameters
    /// * **alpha**: The alpha value of the alpha-beta algorithm. This is the
    ///   value that gets increased.
    /// * **beta**: The beta value of the alpha-beta algorithm. This is the
    ///   one that generates the early exit.
    /// * **heuristics**: The heuristical evaluation of the current situation.
    /// * **depth**: The current search depth.
    ///
    /// # Returns
    /// A pair of the node evaluation and the chosen move. In the case of a
    /// table hit or at the depth limit no move is chosen.
    fn evaluate_next_move(&mut self, alpha: i64, beta: i64, heuristics: i64, depth: u32) -> (result:
        (i64, Option<u32>))
        requires
            old(self).searchable(),
            old(self).tables_bounded(),
            is_score(alpha as int),
            is_score(beta as int),
            is_score(heuristics as int),
            depth <= old(self).depth_limit(),
        ensures
            (SearchOutcome {
                value: result.0 as int,
                column: result.1,
                table: final(self).current(),
            }) == search_spec(
                old(self).board().own_stones,
                old(self).board().opponent_stones,
                old(self).current(),
                old(self).previous(),
                alpha as int,
                beta as int,
                heuristics as int,
                depth as nat,
                old(self).depth_limit() as nat,
            ),
            final(self).board() == old(self).board(),
            final(self).previous() == old(self).previous(),
            final(self).depth_limit() == old(self).depth_limit(),
            final(self).tables_bounded(),
            is_score(result.0 as int),
            match result.1 {
                Some(slot) => is_open_column(
                    old(self).board().own_stones,
                    old(self).board().opponent_stones,
                    slot as int,
                ),
                None => old(self).current().contains_key(
                    position_key(old(self).board().own_stones, old(self).board().opponent_stones),
                ) || depth == old(self).depth_limit(),
            },
        decreases old(self).depth_limit() - depth,
    {
        let ghost own = self.bit_board.own_stones;
        let ghost opp = self.bit_board.opponent_stones;
        let ghost previous = self.hash_map_old@;
        let ghost limit = self.search_depth as nat;
        let ghost entry_table = self.hash_map@;

        let search_key = table_key(&self.bit_board.get_symmetry_independent_position());
        if let Some(cached_value) = Self::look_up(&self.hash_map, search_key) {
            // Transposition hit!
            return (cached_value, None);
        }
        // If we have reached max depth we simply return the heuristics
        // value.
        if depth == self.search_depth {
            return (heuristics, None);
        }
        let mut best_value: i64 = SCORE_GUARD;
        let mut best_slot: u32 = 0;

        let presort_result = self.get_pre_sorted_move_list();
        let mut alpha = alpha;
        let ghost presorted = presort_spec(own, opp, entry_table, previous);
        let ghost start = start_state(presorted, alpha as int, entry_table);
        proof {
            lemma_presort(own, opp, entry_table, previous);
        }
        // The presort result has already filtered out some moves, that
        // either run into an ending or are already completely analyzed.
        if presort_result.best_move.is_some() {
            best_slot = presort_result.best_move.unwrap();
            best_value = presort_result.max_score;
        }
        // We may need to do an alpha beta check here and can eventually
        // return.
        if best_value > alpha {
            alpha = best_value;
            if best_value >= beta {
                self.hash_map.insert(search_key, best_value);
                return (best_value, Some(best_slot));
            }
        }
        let ghost target = search_queue_spec(
            own,
            opp,
            previous,
            presorted.queue,
            0,
            start,
            beta as int,
            depth as nat,
            limit,
        );

        // We start searching now.
        let mut index: usize = 0;
        assert(queue_of(presort_result.working_list@).len() == presort_result.working_list.len());
        while index < presort_result.working_list.len()
            invariant_except_break
                target == search_queue_spec(
                    own,
                    opp,
                    previous,
                    presorted.queue,
                    index as nat,
                    SearchState {
                        alpha: alpha as int,
                        best_value: best_value as int,
                        best_slot: best_slot,
                        table: self.hash_map@,
                    },
                    beta as int,
                    depth as nat,
                    limit,
                ),
            invariant
                index <= presort_result.working_list.len(),
                presorted.queue == queue_of(presort_result.working_list@),
                presorted.queue.len() == presort_result.working_list.len(),
                forall|i: int|
                    0 <= i < presorted.queue.len() ==> is_sound_entry(
                        own,
                        opp,
                        #[trigger] presorted.queue[i],
                    ),
                self.bit_board == old(self).bit_board,
                own == self.bit_board.own_stones,
                opp == self.bit_board.opponent_stones,
                position_ok(own, opp),
                !winning_spec(opp),
                self.hash_map_old@ == previous,
                self.search_depth == limit,
                self.search_depth == old(self).search_depth,
                depth < self.search_depth,
                self.tables_bounded(),
                is_score(alpha as int),
                is_score(beta as int),
                best_value == SCORE_GUARD || is_score(best_value as int),
                index > 0 ==> is_score(best_value as int),
                is_score(best_value as int) ==> is_open_column(own, opp, best_slot as int),
            ensures
                target == (SearchState {
                    alpha: alpha as int,
                    best_value: best_value as int,
                    best_slot: best_slot,
                    table: self.hash_map@,
                }),
                self.bit_board == old(self).bit_board,
                self.hash_map_old@ == previous,
                self.search_depth == limit,
                self.tables_bounded(),
                best_value == SCORE_GUARD || is_score(best_value as int),
                presort_result.working_list.len() > 0 ==> is_score(best_value as int),
                is_score(best_value as int) ==> is_open_column(own, opp, best_slot as int),
            decreases presort_result.working_list.len() - index,
        {
            let list_entry = presort_result.working_list[index];
            let ghost state = SearchState {
                alpha: alpha as int,
                best_value: best_value as int,
                best_slot: best_slot,
                table: self.hash_map@,
            };
            let ghost searched = move_value(
                own,
                opp,
                previous,
                presorted.queue[index as int],
                state,
                beta as int,
                depth as nat,
                limit,
            );
            proof {
                assert(presorted.queue[index as int] == list_entry@);
                assert(is_sound_entry(own, opp, presorted.queue[index as int]));
                assert(is_legal_move(own, opp, list_entry.coded_move));
                lemma_apply_revoke(own, opp, list_entry.coded_move);
                lemma_position_swapped(own | list_entry.coded_move, opp);
            }
            // Apply move.
            self.bit_board.own_stones |= list_entry.coded_move;
            self.bit_board.swap_players();
            let (new_result, _) = self.evaluate_next_move(
                -beta,
                -alpha,
                -list_entry.evaluation,
                depth + 1,
            );
            self.bit_board.swap_players();
            self.bit_board.own_stones ^= list_entry.coded_move;

            let adjusted_result = discount(-new_result);
            assert(searched.value == adjusted_result && searched.table == self.hash_map@);
            if adjusted_result > best_value {
                best_value = adjusted_result;
                best_slot = list_entry.slot;
                if adjusted_result > alpha {
                    alpha = adjusted_result;
                }
            }
            assert(next_state(state, searched, list_entry.slot) == (SearchState {
                alpha: alpha as int,
                best_value: best_value as int,
                best_slot: best_slot,
                table: self.hash_map@,
            }));
            // Early out here.
            if adjusted_result > beta {
                break ;
            }
            index += 1;
        }

        // Insert value into hashmap.
        self.hash_map.insert(search_key, best_value);

        (best_value, Some(best_slot))
    }

    /// Gets the best move for the position handed over: sets the bit board,
    /// does all the computations, and lets the table of this search become
    /// the previous generation for the next. The game must not be over.
    ///
    /// The column returned offers a move. Where some move wins at once, the
    /// move of the column returned does.
    pub fn get_best_move(&mut self, bit_board: BitBoard) -> (column: u32)
        requires
            old(self).wf(),
            bit_board.wf(),
            !is_terminal(bit_board.own_stones, bit_board.opponent_stones),
        ensures
            Some(column) == best_move_spec(
                bit_board.own_stones,
                bit_board.opponent_stones,
                old(self).previous(),
                old(self).depth_limit() as nat,
            ).column,
            final(self).previous() == best_move_spec(
                bit_board.own_stones,
                bit_board.opponent_stones,
                old(self).previous(),
                old(self).depth_limit() as nat,
            ).table,
            final(self).board() == bit_board,
            final(self).depth_limit() == old(self).depth_limit(),
            final(self).wf(),
            is_open_column(bit_board.own_stones, bit_board.opponent_stones, column as int),
            (exists|winning: int|
                wins_at_once(bit_board.own_stones, bit_board.opponent_stones, winning))
                ==> wins_at_once(
                bit_board.own_stones,
                bit_board.opponent_stones,
                column as int,
            ),
    {
        self.bit_board = bit_board;
        proof {
            if exists|winning: int|
                wins_at_once(bit_board.own_stones, bit_board.opponent_stones, winning) {
                lemma_immediate_win(
                    bit_board.own_stones,
                    bit_board.opponent_stones,
                    self.hash_map_old@,
                    self.search_depth as nat,
                );
            }
        }

        let (_, mov) = self.evaluate_next_move(-MAX_SCORE, MAX_SCORE, 0, 0);

        // Demote hash map.
        self.hash_map_old = self.hash_map.clone();
        self.hash_map.clear();
        let mov = mov.unwrap();
        mov
    }
}

} // verus!
