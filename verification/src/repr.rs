use vstd::prelude::*;

verus! {

/// How many stack layers below the carry limit the board encoding keeps.
pub const STACK_DEPTH_BEYOND_CARRY: usize = 6;

pub const COLOUR_CHANNEL: usize = 1;

pub const FCD_CHANNEL: usize = 1;

/// Board sizes that the game supports.
pub open spec fn supported_size(n: int) -> bool {
    3 <= n <= 8
}

/// The number of flat stones and capstones each player starts with on an
/// `n`x`n` board.
pub open spec fn starting_stones(n: nat) -> (nat, nat) {
    if n == 3 {
        (10, 0)
    } else if n == 4 {
        (15, 0)
    } else if n == 5 {
        (21, 1)
    } else if n == 6 {
        (30, 1)
    } else if n == 7 {
        (40, 2)
    } else {
        (50, 2)
    }
}

/// Reserve counts (stones, capstones) per player on a board of size `n`.
pub fn default_starting_stones(n: usize) -> (r: (u8, u8))
    requires
        supported_size(n as int),
    ensures
        (r.0 as nat, r.1 as nat) == starting_stones(n as nat),
{
    match n {
        3 => (10, 0),
        4 => (15, 0),
        5 => (21, 1),
        6 => (30, 1),
        7 => (40, 2),
        _ => (50, 2),
    }
}

/// The number of input channels that encode the stacks of the board:
/// a mine/opponent pair for each of the `n + 2 + STACK_DEPTH_BEYOND_CARRY` layers.
pub open spec fn spec_board_channels(n: nat) -> nat {
    ((n + 2 + STACK_DEPTH_BEYOND_CARRY) * 2) as nat
}

pub fn board_channels(n: usize) -> (r: usize)
    requires
        n + 2 + STACK_DEPTH_BEYOND_CARRY <= usize::MAX / 2,
    ensures
        r == spec_board_channels(n as nat),
{
    (n + 2 + STACK_DEPTH_BEYOND_CARRY) * 2
}

/// The number of network input channels: the board, whose turn it is, the
/// flat count difference, and a one-hot layer per possible reserve count of
/// stones and capstones for both players.
pub open spec fn spec_input_channels(n: nat) -> nat {
    (spec_board_channels(n) + COLOUR_CHANNEL + FCD_CHANNEL + 2 * starting_stones(n).0 + 2
        * starting_stones(n).1) as nat
}

pub fn input_channels(n: usize) -> (r: usize)
    requires
        supported_size(n as int),
    ensures
        r == spec_input_channels(n as nat),
{
    let (stones, capstones) = default_starting_stones(n);
    board_channels(n) + COLOUR_CHANNEL + FCD_CHANNEL + 2 * stones as usize + 2 * capstones as usize
}

/// Binomial coefficient `n` choose `k`.
pub open spec fn binomial(n: nat, k: nat) -> nat
    decreases n,
{
    if k == 0 {
        1
    } else if n == 0 {
        0
    } else {
        binomial((n - 1) as nat, (k - 1) as nat) + binomial((n - 1) as nat, k)
    }
}

/// The number of ways to drop `pieces` carried pieces in at most
/// `max_drops` non-empty drops (the compositions of `pieces` with at most
/// `max_drops` parts).
pub open spec fn drop_sequences(pieces: nat, max_drops: nat) -> nat
    decreases max_drops,
{
    if max_drops == 0 || pieces == 0 {
        0
    } else {
        drop_sequences(pieces, (max_drops - 1) as nat) + binomial(
            (pieces - 1) as nat,
            (max_drops - 1) as nat,
        )
    }
}

/// The number of spreads from one square in one direction, picking up at
/// most `carry` pieces, with `distance` squares to the edge of the board.
pub open spec fn spread_patterns(carry: nat, distance: nat) -> nat
    decreases carry,
{
    if carry == 0 {
        0
    } else {
        spread_patterns((carry - 1) as nat, distance) + drop_sequences(carry, distance)
    }
}

/// The spreads in one direction over all squares of an `n`x`n` board whose
/// distance to the edge in that direction is below `d`: each distance is
/// shared by `n` squares.
pub open spec fn spreads_in_direction(n: nat, d: nat) -> nat
    decreases d,
{
    if d == 0 {
        0
    } else {
        spreads_in_direction(n, (d - 1) as nat) + n * spread_patterns(n, (d - 1) as nat)
    }
}

/// The number of piece kinds that can be placed: flats and walls, and
/// capstones where the board size has any.
pub open spec fn placement_kinds(n: nat) -> nat {
    if starting_stones(n).1 > 0 {
        3
    } else {
        2
    }
}

/// All moves that are possible on some position of an `n`x`n` board:
/// a placement of each kind on each square, and every spread in each of the
/// four directions that stays on the board.
pub open spec fn move_count(n: nat) -> nat {
    placement_kinds(n) * n * n + 4 * spreads_in_direction(n, n)
}

#[verifier::rlimit(100)]
proof fn lemma_move_counts()
    ensures
        move_count(3) == 126,
        move_count(4) == 480,
        move_count(5) == 1575,
        move_count(6) == 4572,
        move_count(7) == 12495,
        move_count(8) == 32704,
{
    assert(binomial(0, 0) == 1);
    assert(binomial(0, 1) == 0);
    assert(binomial(0, 2) == 0);
    assert(binomial(0, 3) == 0);
    assert(binomial(0, 4) == 0);
    assert(binomial(0, 5) == 0);
    assert(binomial(0, 6) == 0);
    assert(binomial(0, 7) == 0);
    assert(binomial(0, 8) == 0);
    assert(binomial(1, 0) == 1);
    assert(binomial(1, 1) == 1);
    assert(binomial(1, 2) == 0);
    assert(binomial(1, 3) == 0);
    assert(binomial(1, 4) == 0);
    assert(binomial(1, 5) == 0);
    assert(binomial(1, 6) == 0);
    assert(binomial(1, 7) == 0);
    assert(binomial(1, 8) == 0);
    assert(binomial(2, 0) == 1);
    assert(binomial(2, 1) == 2);
    assert(binomial(2, 2) == 1);
    assert(binomial(2, 3) == 0);
    assert(binomial(2, 4) == 0);
    assert(binomial(2, 5) == 0);
    assert(binomial(2, 6) == 0);
    assert(binomial(2, 7) == 0);
    assert(binomial(2, 8) == 0);
    assert(binomial(3, 0) == 1);
    assert(binomial(3, 1) == 3);
    assert(binomial(3, 2) == 3);
    assert(binomial(3, 3) == 1);
    assert(binomial(3, 4) == 0);
    assert(binomial(3, 5) == 0);
    assert(binomial(3, 6) == 0);
    assert(binomial(3, 7) == 0);
    assert(binomial(3, 8) == 0);
    assert(binomial(4, 0) == 1);
    assert(binomial(4, 1) == 4);
    assert(binomial(4, 2) == 6);
    assert(binomial(4, 3) == 4);
    assert(binomial(4, 4) == 1);
    assert(binomial(4, 5) == 0);
    assert(binomial(4, 6) == 0);
    assert(binomial(4, 7) == 0);
    assert(binomial(4, 8) == 0);
    assert(binomial(5, 0) == 1);
    assert(binomial(5, 1) == 5);
    assert(binomial(5, 2) == 10);
    assert(binomial(5, 3) == 10);
    assert(binomial(5, 4) == 5);
    assert(binomial(5, 5) == 1);
    assert(binomial(5, 6) == 0);
    assert(binomial(5, 7) == 0);
    assert(binomial(5, 8) == 0);
    assert(binomial(6, 0) == 1);
    assert(binomial(6, 1) == 6);
    assert(binomial(6, 2) == 15);
    assert(binomial(6, 3) == 20);
    assert(binomial(6, 4) == 15);
    assert(binomial(6, 5) == 6);
    assert(binomial(6, 6) == 1);
    assert(binomial(6, 7) == 0);
    assert(binomial(6, 8) == 0);
    assert(binomial(7, 0) == 1);
    assert(binomial(7, 1) == 7);
    assert(binomial(7, 2) == 21);
    assert(binomial(7, 3) == 35);
    assert(binomial(7, 4) == 35);
    assert(binomial(7, 5) == 21);
    assert(binomial(7, 6) == 7);
    assert(binomial(7, 7) == 1);
    assert(binomial(7, 8) == 0);
    assert(drop_sequences(0, 0) == 0);
    assert(drop_sequences(0, 1) == 0);
    assert(drop_sequences(0, 2) == 0);
    assert(drop_sequences(0, 3) == 0);
    assert(drop_sequences(0, 4) == 0);
    assert(drop_sequences(0, 5) == 0);
    assert(drop_sequences(0, 6) == 0);
    assert(drop_sequences(0, 7) == 0);
    assert(drop_sequences(0, 8) == 0);
    assert(drop_sequences(1, 0) == 0);
    assert(drop_sequences(1, 1) == 1);
    assert(drop_sequences(1, 2) == 1);
    assert(drop_sequences(1, 3) == 1);
    assert(drop_sequences(1, 4) == 1);
    assert(drop_sequences(1, 5) == 1);
    assert(drop_sequences(1, 6) == 1);
    assert(drop_sequences(1, 7) == 1);
    assert(drop_sequences(1, 8) == 1);
    assert(drop_sequences(2, 0) == 0);
    assert(drop_sequences(2, 1) == 1);
    assert(drop_sequences(2, 2) == 2);
    assert(drop_sequences(2, 3) == 2);
    assert(drop_sequences(2, 4) == 2);
    assert(drop_sequences(2, 5) == 2);
    assert(drop_sequences(2, 6) == 2);
    assert(drop_sequences(2, 7) == 2);
    assert(drop_sequences(2, 8) == 2);
    assert(drop_sequences(3, 0) == 0);
    assert(drop_sequences(3, 1) == 1);
    assert(drop_sequences(3, 2) == 3);
    assert(drop_sequences(3, 3) == 4);
    assert(drop_sequences(3, 4) == 4);
    assert(drop_sequences(3, 5) == 4);
    assert(drop_sequences(3, 6) == 4);
    assert(drop_sequences(3, 7) == 4);
    assert(drop_sequences(3, 8) == 4);
    assert(drop_sequences(4, 0) == 0);
    assert(drop_sequences(4, 1) == 1);
    assert(drop_sequences(4, 2) == 4);
    assert(drop_sequences(4, 3) == 7);
    assert(drop_sequences(4, 4) == 8);
    assert(drop_sequences(4, 5) == 8);
    assert(drop_sequences(4, 6) == 8);
    assert(drop_sequences(4, 7) == 8);
    assert(drop_sequences(4, 8) == 8);
    assert(drop_sequences(5, 0) == 0);
    assert(drop_sequences(5, 1) == 1);
    assert(drop_sequences(5, 2) == 5);
    assert(drop_sequences(5, 3) == 11);
    assert(drop_sequences(5, 4) == 15);
    assert(drop_sequences(5, 5) == 16);
    assert(drop_sequences(5, 6) == 16);
    assert(drop_sequences(5, 7) == 16);
    assert(drop_sequences(5, 8) == 16);
    assert(drop_sequences(6, 0) == 0);
    assert(drop_sequences(6, 1) == 1);
    assert(drop_sequences(6, 2) == 6);
    assert(drop_sequences(6, 3) == 16);
    assert(drop_sequences(6, 4) == 26);
    assert(drop_sequences(6, 5) == 31);
    assert(drop_sequences(6, 6) == 32);
    assert(drop_sequences(6, 7) == 32);
    assert(drop_sequences(6, 8) == 32);
    assert(drop_sequences(7, 0) == 0);
    assert(drop_sequences(7, 1) == 1);
    assert(drop_sequences(7, 2) == 7);
    assert(drop_sequences(7, 3) == 22);
    assert(drop_sequences(7, 4) == 42);
    assert(drop_sequences(7, 5) == 57);
    assert(drop_sequences(7, 6) == 63);
    assert(drop_sequences(7, 7) == 64);
    assert(drop_sequences(7, 8) == 64);
    assert(drop_sequences(8, 0) == 0);
    assert(drop_sequences(8, 1) == 1);
    assert(drop_sequences(8, 2) == 8);
    assert(drop_sequences(8, 3) == 29);
    assert(drop_sequences(8, 4) == 64);
    assert(drop_sequences(8, 5) == 99);
    assert(drop_sequences(8, 6) == 120);
    assert(drop_sequences(8, 7) == 127);
    assert(drop_sequences(8, 8) == 128);
    assert(spread_patterns(0, 0) == 0);
    assert(spread_patterns(0, 1) == 0);
    assert(spread_patterns(0, 2) == 0);
    assert(spread_patterns(0, 3) == 0);
    assert(spread_patterns(0, 4) == 0);
    assert(spread_patterns(0, 5) == 0);
    assert(spread_patterns(0, 6) == 0);
    assert(spread_patterns(0, 7) == 0);
    assert(spread_patterns(1, 0) == 0);
    assert(spread_patterns(1, 1) == 1);
    assert(spread_patterns(1, 2) == 1);
    assert(spread_patterns(1, 3) == 1);
    assert(spread_patterns(1, 4) == 1);
    assert(spread_patterns(1, 5) == 1);
    assert(spread_patterns(1, 6) == 1);
    assert(spread_patterns(1, 7) == 1);
    assert(spread_patterns(2, 0) == 0);
    assert(spread_patterns(2, 1) == 2);
    assert(spread_patterns(2, 2) == 3);
    assert(spread_patterns(2, 3) == 3);
    assert(spread_patterns(2, 4) == 3);
    assert(spread_patterns(2, 5) == 3);
    assert(spread_patterns(2, 6) == 3);
    assert(spread_patterns(2, 7) == 3);
    assert(spread_patterns(3, 0) == 0);
    assert(spread_patterns(3, 1) == 3);
    assert(spread_patterns(3, 2) == 6);
    assert(spread_patterns(3, 3) == 7);
    assert(spread_patterns(3, 4) == 7);
    assert(spread_patterns(3, 5) == 7);
    assert(spread_patterns(3, 6) == 7);
    assert(spread_patterns(3, 7) == 7);
    assert(spread_patterns(4, 0) == 0);
    assert(spread_patterns(4, 1) == 4);
    assert(spread_patterns(4, 2) == 10);
    assert(spread_patterns(4, 3) == 14);
    assert(spread_patterns(4, 4) == 15);
    assert(spread_patterns(4, 5) == 15);
    assert(spread_patterns(4, 6) == 15);
    assert(spread_patterns(4, 7) == 15);
    assert(spread_patterns(5, 0) == 0);
    assert(spread_patterns(5, 1) == 5);
    assert(spread_patterns(5, 2) == 15);
    assert(spread_patterns(5, 3) == 25);
    assert(spread_patterns(5, 4) == 30);
    assert(spread_patterns(5, 5) == 31);
    assert(spread_patterns(5, 6) == 31);
    assert(spread_patterns(5, 7) == 31);
    assert(spread_patterns(6, 0) == 0);
    assert(spread_patterns(6, 1) == 6);
    assert(spread_patterns(6, 2) == 21);
    assert(spread_patterns(6, 3) == 41);
    assert(spread_patterns(6, 4) == 56);
    assert(spread_patterns(6, 5) == 62);
    assert(spread_patterns(6, 6) == 63);
    assert(spread_patterns(6, 7) == 63);
    assert(spread_patterns(7, 0) == 0);
    assert(spread_patterns(7, 1) == 7);
    assert(spread_patterns(7, 2) == 28);
    assert(spread_patterns(7, 3) == 63);
    assert(spread_patterns(7, 4) == 98);
    assert(spread_patterns(7, 5) == 119);
    assert(spread_patterns(7, 6) == 126);
    assert(spread_patterns(7, 7) == 127);
    assert(spread_patterns(8, 0) == 0);
    assert(spread_patterns(8, 1) == 8);
    assert(spread_patterns(8, 2) == 36);
    assert(spread_patterns(8, 3) == 92);
    assert(spread_patterns(8, 4) == 162);
    assert(spread_patterns(8, 5) == 218);
    assert(spread_patterns(8, 6) == 246);
    assert(spread_patterns(8, 7) == 254);
    assert(spreads_in_direction(3, 0) == 0);
    assert(spreads_in_direction(3, 1) == 0);
    assert(spreads_in_direction(3, 2) == 9);
    assert(spreads_in_direction(3, 3) == 27);
    assert(spreads_in_direction(4, 0) == 0);
    assert(spreads_in_direction(4, 1) == 0);
    assert(spreads_in_direction(4, 2) == 16);
    assert(spreads_in_direction(4, 3) == 56);
    assert(spreads_in_direction(4, 4) == 112);
    assert(spreads_in_direction(5, 0) == 0);
    assert(spreads_in_direction(5, 1) == 0);
    assert(spreads_in_direction(5, 2) == 25);
    assert(spreads_in_direction(5, 3) == 100);
    assert(spreads_in_direction(5, 4) == 225);
    assert(spreads_in_direction(5, 5) == 375);
    assert(spreads_in_direction(6, 0) == 0);
    assert(spreads_in_direction(6, 1) == 0);
    assert(spreads_in_direction(6, 2) == 36);
    assert(spreads_in_direction(6, 3) == 162);
    assert(spreads_in_direction(6, 4) == 408);
    assert(spreads_in_direction(6, 5) == 744);
    assert(spreads_in_direction(6, 6) == 1116);
    assert(spreads_in_direction(7, 0) == 0);
    assert(spreads_in_direction(7, 1) == 0);
    assert(spreads_in_direction(7, 2) == 49);
    assert(spreads_in_direction(7, 3) == 245);
    assert(spreads_in_direction(7, 4) == 686);
    assert(spreads_in_direction(7, 5) == 1372);
    assert(spreads_in_direction(7, 6) == 2205);
    assert(spreads_in_direction(7, 7) == 3087);
    assert(spreads_in_direction(8, 0) == 0);
    assert(spreads_in_direction(8, 1) == 0);
    assert(spreads_in_direction(8, 2) == 64);
    assert(spreads_in_direction(8, 3) == 352);
    assert(spreads_in_direction(8, 4) == 1088);
    assert(spreads_in_direction(8, 5) == 2384);
    assert(spreads_in_direction(8, 6) == 4128);
    assert(spreads_in_direction(8, 7) == 6096);
    assert(spreads_in_direction(8, 8) == 8128);
}

/// Get the number of actually possible moves on each board size.
/// This is used by the older network which has each move one-hot encoded in a
/// vector.
pub fn possible_moves(n: usize) -> (r: usize)
    requires
        supported_size(n as int),
    ensures
        r == move_count(n as nat),
{
    proof {
        lemma_move_counts();
    }
    match n {
        3 => 2 * 3 * 3 + 108,
        4 => 2 * 4 * 4 + 448,
        5 => 3 * 5 * 5 + 1500,
        6 => 3 * 6 * 6 + 4464,
        7 => 3 * 7 * 7 + 12348,
        _ => 3 * 8 * 8 + 32512,
    }
}

/// The size of the policy vector of the one-hot move encoding.
pub fn moves_dims(n: usize) -> (r: usize)
    requires
        supported_size(n as int),
    ensures
        r == move_count(n as nat),
{
    possible_moves(n)
}

/// The reserves each player starts with, by the rules of Tak: 10, 15, 21,
/// 30, 40 and 50 flat stones on the boards of size 3 to 8, and capstones
/// only from size 5 on (one on 5 and 6, two on 7 and 8); bigger boards
/// never have fewer pieces.
pub proof fn law_starting_reserves(n: nat, m: nat)
    requires
        supported_size(n as int),
        supported_size(m as int),
    ensures
        n == 3 ==> starting_stones(n) == (10nat, 0nat),
        n == 4 ==> starting_stones(n) == (15nat, 0nat),
        n == 5 ==> starting_stones(n) == (21nat, 1nat),
        n == 6 ==> starting_stones(n) == (30nat, 1nat),
        n == 7 ==> starting_stones(n) == (40nat, 2nat),
        n == 8 ==> starting_stones(n) == (50nat, 2nat),
        n < m ==> starting_stones(n).0 < starting_stones(m).0 && starting_stones(n).1
            <= starting_stones(m).1,
{
}

} // verus!
