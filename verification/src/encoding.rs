//! The network's view of a position: the board and the reserves as planes of
//! bits, seen from the player to move.
use vstd::prelude::*;

use crate::colour::Colour;
use crate::repr::{spec_board_channels, starting_stones, supported_size, STACK_DEPTH_BEYOND_CARRY};
use crate::tile::{Piece, Shape, Tile};

verus! {

/// The top-layer channel of a piece: flats, walls and capstones each take
/// two channels, the first for the player to move, the second for the
/// opponent.
pub open spec fn top_channel(piece: Piece, to_move: Colour) -> nat {
    (match piece.shape {
        Shape::Flat => 0nat,
        Shape::Wall => 2,
        Shape::Capstone => 4,
    }) + if piece.colour == to_move {
        0nat
    } else {
        1
    }
}

/// Whether a square sets `channel`: the channels below 6 encode the top
/// piece; then each layer under the top (nearest first) has two channels,
/// for the player to move and for the opponent.
pub open spec fn square_bit(square: Option<Tile>, to_move: Colour, channel: nat) -> bool {
    match square {
        None => false,
        Some(tile) => if channel < 6 {
            top_channel(tile.top, to_move) == channel
        } else {
            let layer = (channel - 6) / 2;
            let mine = (channel - 6) % 2 == 0;
            layer < tile.stack@.len() && ((tile.stack@[tile.stack@.len() - 1 - layer] == to_move)
                == mine)
        },
    }
}

/// One plane: the bit of every square for `channel`.
pub open spec fn plane(board: Seq<Option<Tile>>, to_move: Colour, channel: nat) -> Seq<bool> {
    Seq::new(board.len(), |i: int| square_bit(board[i], to_move, channel))
}

/// The first `channels` planes, one after the other.
pub open spec fn planes(board: Seq<Option<Tile>>, to_move: Colour, channels: nat) -> Seq<bool>
    decreases channels,
{
    if channels == 0 {
        Seq::empty()
    } else {
        planes(board, to_move, (channels - 1) as nat) + plane(board, to_move, (channels - 1) as nat)
    }
}

/// The board encoding: `board_channels(n)` planes of `n * n` squares, the
/// squares of each plane row by row.
pub open spec fn board_bits(board: Seq<Option<Tile>>, to_move: Colour, n: nat) -> Seq<bool> {
    planes(board, to_move, spec_board_channels(n))
}

fn square_bit_of(square: &Option<Tile>, to_move: Colour, channel: usize) -> (r: bool)
    ensures
        r == square_bit(*square, to_move, channel as nat),
{
    match square {
        None => false,
        Some(tile) => {
            if channel < 6 {
                let shape: usize = match tile.top.shape {
                    Shape::Flat => 0,
                    Shape::Wall => 2,
                    Shape::Capstone => 4,
                };
                let side: usize = if tile.top.colour == to_move {
                    0
                } else {
                    1
                };
                shape + side == channel
            } else {
                let layer = (channel - 6) / 2;
                let mine = (channel - 6) % 2 == 0;
                let len = tile.stack.len();
                layer < len && ((tile.stack[len - 1 - layer] == to_move) == mine)
            }
        },
    }
}

/// Creates the bits of the tensor which represents the board from the
/// perspective of the player to move: for each channel, a plane of the
/// squares in row-major order (square `n * y + x`).
pub fn board_repr(board: &Vec<Option<Tile>>, n: usize, to_move: Colour) -> (r: Vec<bool>)
    requires
        supported_size(n as int),
        board@.len() == n * n,
    ensures
        r@ == board_bits(board@, to_move, n as nat),
{
    let channels = (n + 2 + STACK_DEPTH_BEYOND_CARRY) * 2;
    let mut out: Vec<bool> = Vec::new();
    let mut c: usize = 0;
    while c < channels
        invariant
            c <= channels,
            channels == spec_board_channels(n as nat),
            out@ == planes(board@, to_move, c as nat),
        decreases channels - c,
    {
        let ghost before = out@;
        let mut i: usize = 0;
        while i < board.len()
            invariant
                i <= board@.len(),
                out@ == before + plane(board@, to_move, c as nat).take(i as int),
            decreases board@.len() - i,
        {
            let bit = square_bit_of(&board[i], to_move, c);
            out.push(bit);
            assert(plane(board@, to_move, c as nat).take(i + 1) =~= plane(board@, to_move, c as nat).take(
                i as int,
            ).push(bit));
            i = i + 1;
        }
        assert(plane(board@, to_move, c as nat).take(board@.len() as int) =~= plane(
            board@,
            to_move,
            c as nat,
        ));
        c = c + 1;
    }
    out
}

/// One-hot planes of a reserve count: `max` planes of `squares` bits, all of
/// plane `count - 1` set (none for an empty reserve).
pub open spec fn reserve_bits(count: nat, max: nat, squares: nat) -> Seq<bool> {
    Seq::new(max * squares, |i: int| count > 0 && i / (squares as int) == count - 1)
}

/// The one-hot planes of a reserve count.
pub fn create_reserves(count: u8, max: u8, squares: usize) -> (r: Vec<bool>)
    requires
        count <= max,
        0 < squares <= 64,
    ensures
        r@ == reserve_bits(count as nat, max as nat, squares as nat),
{
    let mut out: Vec<bool> = Vec::new();
    let mut layer: u8 = 0;
    while layer < max
        invariant
            layer <= max,
            0 < squares <= 64,
            out@.len() == layer * squares,
            forall|i: int|
                0 <= i < out@.len() ==> out@[i] == (count > 0 && i / (squares as int) == count - 1),
        decreases max - layer,
    {
        let mut i: usize = 0;
        let set = count > 0 && layer == count - 1;
        while i < squares
            invariant
                i <= squares,
                0 < squares <= 64,
                layer < max,
                set == (count > 0 && layer == count - 1),
                out@.len() == layer * squares + i,
                forall|j: int|
                    0 <= j < out@.len() ==> out@[j] == (count > 0 && j / (squares as int) == count
                        - 1),
            decreases squares - i,
        {
            proof {
                let k = layer * squares + i;
                assert(k / (squares as int) == layer) by (nonlinear_arith)
                    requires
                        k == layer * squares + i,
                        0 <= i < squares,
                        layer >= 0,
                ;
            }
            out.push(set);
            i = i + 1;
        }
        assert((layer + 1) * squares == layer * squares + squares) by (nonlinear_arith);
        layer = layer + 1;
    }
    assert(out@ =~= reserve_bits(count as nat, max as nat, squares as nat));
    out
}

/// The reserve planes as the network sees them: the stones of the player to
/// move, the opponent's stones, the capstones of the player to move, the
/// opponent's capstones.
pub fn reserves_repr(
    n: usize,
    to_move: Colour,
    white_stones: u8,
    black_stones: u8,
    white_caps: u8,
    black_caps: u8,
) -> (r: (Vec<bool>, Vec<bool>, Vec<bool>, Vec<bool>))
    requires
        supported_size(n as int),
        white_stones <= starting_stones(n as nat).0,
        black_stones <= starting_stones(n as nat).0,
        white_caps <= starting_stones(n as nat).1,
        black_caps <= starting_stones(n as nat).1,
    ensures
        ({
            let (stones, caps) = starting_stones(n as nat);
            let (my_stones, en_stones, my_caps, en_caps) = if to_move == Colour::White {
                (white_stones, black_stones, white_caps, black_caps)
            } else {
                (black_stones, white_stones, black_caps, white_caps)
            };
            &&& r.0@ == reserve_bits(my_stones as nat, stones, (n * n) as nat)
            &&& r.1@ == reserve_bits(en_stones as nat, stones, (n * n) as nat)
            &&& r.2@ == reserve_bits(my_caps as nat, caps, (n * n) as nat)
            &&& r.3@ == reserve_bits(en_caps as nat, caps, (n * n) as nat)
        }),
{
    let (stones, capstones) = crate::repr::default_starting_stones(n);
    assert(n * n <= 64) by (nonlinear_arith)
        requires
            3 <= n <= 8,
    ;
    assert(n * n > 0) by (nonlinear_arith)
        requires
            3 <= n <= 8,
    ;
    let squares = n * n;
    let white_stone_planes = create_reserves(white_stones, stones, squares);
    let black_stone_planes = create_reserves(black_stones, stones, squares);
    let white_cap_planes = create_reserves(white_caps, capstones, squares);
    let black_cap_planes = create_reserves(black_caps, capstones, squares);
    if to_move == Colour::White {
        (white_stone_planes, black_stone_planes, white_cap_planes, black_cap_planes)
    } else {
        (black_stone_planes, white_stone_planes, black_cap_planes, white_cap_planes)
    }
}

/// The other colour.
pub open spec fn opposite(colour: Colour) -> Colour {
    match colour {
        Colour::White => Colour::Black,
        Colour::Black => Colour::White,
    }
}

/// A square with the colours of all its pieces exchanged.
pub open spec fn swap_square(square: Option<Tile>) -> Option<Tile> {
    match square {
        None => None,
        Some(tile) => Some(
            Tile {
                top: Piece { colour: opposite(tile.top.colour), shape: tile.top.shape },
                stack: tile.stack,
            },
        ),
    }
}

/// Whether `swapped` is `board` with the colours of all pieces exchanged.
pub open spec fn colours_swapped(board: Seq<Option<Tile>>, swapped: Seq<Option<Tile>>) -> bool {
    &&& swapped.len() == board.len()
    &&& forall|i: int|
        0 <= i < board.len() ==> {
            let a = #[trigger] board[i];
            let b = swapped[i];
            match (a, b) {
                (None, None) => true,
                (Some(s), Some(t)) => t.top == Piece {
                    colour: opposite(s.top.colour),
                    shape: s.top.shape,
                } && t.stack@.len() == s.stack@.len() && forall|j: int|
                    0 <= j < s.stack@.len() ==> #[trigger] t.stack@[j] == opposite(s.stack@[j]),
                _ => false,
            }
        }
}

/// The board is encoded from the perspective of the player to move: a
/// position and the same position with all colours exchanged and the other
/// player to move look the same to the network.
pub proof fn law_board_repr_is_colour_blind(
    board: Seq<Option<Tile>>,
    swapped: Seq<Option<Tile>>,
    to_move: Colour,
    n: nat,
)
    requires
        colours_swapped(board, swapped),
    ensures
        board_bits(board, to_move, n) == board_bits(swapped, opposite(to_move), n),
{
    assert forall|c: nat| #[trigger] plane(board, to_move, c) == plane(swapped, opposite(to_move), c) by {
        assert forall|i: int| 0 <= i < board.len() implies square_bit(board[i], to_move, c) == square_bit(
            swapped[i],
            opposite(to_move),
            c,
        ) by {
            match (board[i], swapped[i]) {
                (Some(s), Some(t)) => {
                    if c >= 6 {
                        let layer = (c - 6) / 2;
                        if layer < s.stack@.len() {
                            let k = s.stack@.len() - 1 - layer;
                            assert(t.stack@[k] == opposite(s.stack@[k]));
                        }
                    }
                },
                _ => {},
            }
        }
        assert(plane(board, to_move, c) =~= plane(swapped, opposite(to_move), c));
    }
    lemma_planes_agree(board, swapped, to_move, spec_board_channels(n));
}

proof fn lemma_planes_agree(board: Seq<Option<Tile>>, swapped: Seq<Option<Tile>>, to_move: Colour, channels: nat)
    requires
        forall|c: nat| #[trigger] plane(board, to_move, c) == plane(swapped, opposite(to_move), c),
    ensures
        planes(board, to_move, channels) == planes(swapped, opposite(to_move), channels),
    decreases channels,
{
    if channels > 0 {
        lemma_planes_agree(board, swapped, to_move, (channels - 1) as nat);
        assert(plane(board, to_move, (channels - 1) as nat) == plane(
            swapped,
            opposite(to_move),
            (channels - 1) as nat,
        ));
    }
}

proof fn lemma_planes_len(board: Seq<Option<Tile>>, to_move: Colour, channels: nat)
    ensures
        planes(board, to_move, channels).len() == channels * board.len(),
    decreases channels,
{
    let c = channels as int;
    let l = board.len() as int;
    if channels > 0 {
        let prev = (channels - 1) as nat;
        lemma_planes_len(board, to_move, prev);
        assert(plane(board, to_move, prev).len() == l);
        assert(planes(board, to_move, channels).len() == prev * l + l);
        assert(prev * l + l == c * l) by (nonlinear_arith)
            requires
                prev == c - 1,
        ;
    } else {
        assert(c * l == 0) by (nonlinear_arith)
            requires
                c == 0,
        ;
    }
}

proof fn lemma_planes_index(
    board: Seq<Option<Tile>>,
    to_move: Colour,
    channels: nat,
    channel: nat,
    square: int,
)
    requires
        channel < channels,
        0 <= square < board.len(),
    ensures
        planes(board, to_move, channels)[channel * board.len() + square] == square_bit(
            board[square],
            to_move,
            channel,
        ),
    decreases channels,
{
    let prev = (channels - 1) as nat;
    let l = board.len() as int;
    lemma_planes_len(board, to_move, prev);
    if channel < prev {
        lemma_planes_index(board, to_move, prev, channel, square);
        let c = channel as int;
        let p = prev as int;
        assert(c * l + square < p * l) by (nonlinear_arith)
            requires
                0 <= c < p,
                0 <= square < l,
        ;
        assert(0 <= c * l) by (nonlinear_arith)
            requires
                0 <= c,
                0 <= l,
        ;
    } else {
        assert(channel * board.len() + square - prev * board.len() == square);
    }
}

/// The bit of `square` in plane `channel` of the board encoding.
proof fn lemma_board_bit(board: Seq<Option<Tile>>, to_move: Colour, n: nat, channel: nat, square: int)
    requires
        board.len() == n * n,
        channel < spec_board_channels(n),
        0 <= square < n * n,
    ensures
        board_bits(board, to_move, n).len() == spec_board_channels(n) * (n * n),
        board_bits(board, to_move, n)[channel * (n * n) + square] == square_bit(
            board[square],
            to_move,
            channel,
        ),
{
    lemma_planes_len(board, to_move, spec_board_channels(n));
    lemma_planes_index(board, to_move, spec_board_channels(n), channel, square);
}

/// The top piece of every square is encoded in the first six planes: an
/// empty square sets none of them, and an occupied one sets exactly the
/// plane whose half (`channel / 2`) names the top piece's shape (flat, wall,
/// capstone) and whose parity says whose it is (even for the player to
/// move).
pub proof fn law_board_top_pieces(
    board: Seq<Option<Tile>>,
    to_move: Colour,
    n: nat,
    square: int,
    channel: nat,
)
    requires
        supported_size(n as int),
        board.len() == n * n,
        0 <= square < n * n,
        channel < 6,
    ensures
        board_bits(board, to_move, n).len() == spec_board_channels(n) * (n * n),
        board_bits(board, to_move, n)[channel * (n * n) + square] == match board[square] {
            None => false,
            Some(t) => {
                &&& (channel % 2 == 0) == (t.top.colour == to_move)
                &&& (channel / 2 == 0) == (t.top.shape == Shape::Flat)
                &&& (channel / 2 == 1) == (t.top.shape == Shape::Wall)
                &&& (channel / 2 == 2) == (t.top.shape == Shape::Capstone)
            },
        },
{
    lemma_board_bit(board, to_move, n, channel, square);
}

/// Below the top, every layer of a stack down to `n + 5` pieces under the
/// top has two planes, for the player to move and for the opponent
/// (planes `6 + 2 * layer` and `7 + 2 * layer`): a square sets exactly one
/// of the two when its stack reaches that deep, the one of the colour of the
/// piece there, and neither otherwise. So a stack of `h` pieces sets
/// `min(h - 1, n + 5)` layer bits.
pub proof fn law_board_stack_layers(
    board: Seq<Option<Tile>>,
    to_move: Colour,
    n: nat,
    square: int,
    layer: nat,
)
    requires
        supported_size(n as int),
        board.len() == n * n,
        0 <= square < n * n,
        layer < n + 5,
    ensures
        ({
            let bits = board_bits(board, to_move, n);
            let mine = bits[(6 + 2 * layer) * (n * n) + square];
            let theirs = bits[(7 + 2 * layer) * (n * n) + square];
            match board[square] {
                None => !mine && !theirs,
                Some(t) => {
                    &&& (mine || theirs) == (layer < t.stack@.len())
                    &&& !(mine && theirs)
                    &&& mine ==> t.stack@[t.stack@.len() - 1 - layer] == to_move
                    &&& theirs ==> t.stack@[t.stack@.len() - 1 - layer] != to_move
                },
            }
        }),
{
    lemma_board_bit(board, to_move, n, (6 + 2 * layer) as nat, square);
    lemma_board_bit(board, to_move, n, (7 + 2 * layer) as nat, square);
    assert(((6 + 2 * layer) - 6) / 2 == layer);
    assert(((7 + 2 * layer) - 6) / 2 == layer);
    assert(((6 + 2 * layer) - 6) % 2 == 0);
    assert(((7 + 2 * layer) - 6) % 2 == 1);
}

/// The reserve planes are one-hot: a count of `count` out of `max` sets
/// exactly the `squares` bits of plane `count - 1`, and an empty reserve
/// sets none.
pub proof fn law_reserve_planes_one_hot(count: nat, max: nat, squares: nat, i: int)
    requires
        count <= max,
        squares > 0,
        0 <= i < max * squares,
    ensures
        reserve_bits(count, max, squares).len() == max * squares,
        reserve_bits(count, max, squares)[i] == (count > 0 && (count - 1) * squares <= i
            < count * squares),
{
    let s = squares as int;
    let q = i / s;
    assert(q * s <= i < q * s + s) by (nonlinear_arith)
        requires
            s > 0,
            q == i / s,
            i >= 0,
    ;
    if count > 0 {
        let c = count as int;
        if q == c - 1 {
            assert(c * s == (c - 1) * s + s) by (nonlinear_arith);
        } else if q < c - 1 {
            assert((q + 1) * s <= (c - 1) * s) by (nonlinear_arith)
                requires
                    q + 1 <= c - 1,
                    s > 0,
            ;
            assert((q + 1) * s == q * s + s) by (nonlinear_arith);
        } else {
            assert(c * s <= q * s) by (nonlinear_arith)
                requires
                    c <= q,
                    s > 0,
            ;
        }
    }
}

/// Different reserve counts are encoded differently: the network can tell
/// every count from every other, a full reserve from an empty one too.
pub proof fn law_reserve_counts_differ(a: nat, b: nat, max: nat, squares: nat)
    requires
        a <= max,
        b <= max,
        a != b,
        squares > 0,
    ensures
        reserve_bits(a, max, squares) != reserve_bits(b, max, squares),
{
    let c = if a > 0 {
        a
    } else {
        b
    };
    let i = (c - 1) * squares;
    assert(0 <= i < max * squares) by (nonlinear_arith)
        requires
            i == (c - 1) * squares,
            1 <= c <= max,
            squares > 0,
    ;
    assert(c * squares == (c - 1) * squares + squares) by (nonlinear_arith);
    law_reserve_planes_one_hot(a, max, squares, i);
    law_reserve_planes_one_hot(b, max, squares, i);
    if b > 0 && a > 0 {
        let other = if c == a {
            b
        } else {
            a
        };
        if other < c {
            assert(other * squares <= (c - 1) * squares) by (nonlinear_arith)
                requires
                    other <= c - 1,
                    squares > 0,
            ;
        } else {
            assert(c * squares <= (other - 1) * squares) by (nonlinear_arith)
                requires
                    c <= other - 1,
                    squares > 0,
            ;
        }
    }
    assert(reserve_bits(a, max, squares)[i] != reserve_bits(b, max, squares)[i]);
}

/// The network's input channels are exactly the planes that the encodings
/// produce: the board planes, one plane for the side to move, one for the
/// flat count difference, and the one-hot reserve planes of both players'
/// stones and capstones.
pub proof fn law_input_channels_cover_encoding(
    n: nat,
    board: Seq<Option<Tile>>,
    to_move: Colour,
    white_stones: nat,
    black_stones: nat,
    white_caps: nat,
    black_caps: nat,
)
    requires
        supported_size(n as int),
        board.len() == n * n,
    ensures
        ({
            let (stones, caps) = starting_stones(n);
            let squares = n * n;
            crate::repr::spec_input_channels(n) * squares == board_bits(board, to_move, n).len() + 2
                * squares + reserve_bits(white_stones, stones, squares).len() + reserve_bits(
                black_stones,
                stones,
                squares,
            ).len() + reserve_bits(white_caps, caps, squares).len() + reserve_bits(
                black_caps,
                caps,
                squares,
            ).len()
        }),
{
    lemma_planes_len(board, to_move, spec_board_channels(n));
    let (stones, caps) = starting_stones(n);
    let sq = (n * n) as int;
    let b = spec_board_channels(n) as int;
    let st = stones as int;
    let cp = caps as int;
    assert((b + 1 + 1 + 2 * st + 2 * cp) * sq == b * sq + 2 * sq + st * sq + st * sq + cp * sq + cp
        * sq) by (nonlinear_arith);
}

} // verus!
