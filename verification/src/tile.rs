use vstd::prelude::*;

use crate::colour::Colour;
use crate::text::{decimal, push_decimal};

verus! {

/// The shape of a piece.
#[derive(Clone, Copy, Debug, PartialEq, Eq, Hash, Structural)]
pub enum Shape {
    Flat,
    Wall,
    Capstone,
}

/// A piece: its owner and its shape.
#[derive(Clone, Copy, Debug, PartialEq, Eq, Hash, Structural)]
pub struct Piece {
    pub colour: Colour,
    pub shape: Shape,
}

/// A non-empty stack of pieces on one square.
/// `top` is the visible piece; `stack` holds the colours of the flats below
/// it, bottom first.
#[derive(Clone, Debug, PartialEq, Eq)]
pub struct Tile {
    pub top: Piece,
    pub stack: Vec<Colour>,
}

/// A flat of the given colour.
pub open spec fn flat(colour: Colour) -> Piece {
    Piece { colour, shape: Shape::Flat }
}

/// Whether `piece` may be placed on top of a stack whose top has shape `below`:
/// anything goes on a flat, only a capstone flattens a wall, nothing goes on
/// a capstone.
pub open spec fn may_stack(below: Shape, piece: Piece) -> bool {
    match below {
        Shape::Flat => true,
        Shape::Wall => piece.shape == Shape::Capstone,
        Shape::Capstone => false,
    }
}

/// The pieces of a stack with its top piece turned into a flat.
pub open spec fn flatten_top(pieces: Seq<Piece>) -> Seq<Piece>
    recommends
        pieces.len() > 0,
{
    pieces.update(pieces.len() - 1, flat(pieces.last().colour))
}

/// The `amount` top pieces of a stack, top first.
pub open spec fn carried(pieces: Seq<Piece>, amount: nat) -> Seq<Piece> {
    Seq::new(amount, |i: int| pieces[pieces.len() - 1 - i])
}

/// The pieces of an optional tile, bottom first (none for an empty square).
pub open spec fn square_pieces(tile: Option<Tile>) -> Seq<Piece> {
    match tile {
        Some(t) => t.pieces(),
        None => Seq::empty(),
    }
}

pub open spec fn wall_error() -> Seq<char> {
    "can only flatten a wall with a capstone"@
}

pub open spec fn capstone_error() -> Seq<char> {
    "cannot create a stack on top of a capstone"@
}

pub open spec fn take_zero_error() -> Seq<char> {
    "cannot take 0 from a tile"@
}

pub open spec fn carry_limit_error(amount: nat) -> Seq<char> {
    "cannot take more than the carry limit, amount="@ + decimal(amount)
}

pub open spec fn too_many_error(amount: nat, count: nat) -> Seq<char> {
    "cannot take more pieces than there are on the tile, amount="@ + decimal(amount) + ", count="@
        + decimal(count)
}

impl Tile {
    /// All pieces of the tile, bottom first: the flats of `stack`, then `top`.
    pub open spec fn pieces(self) -> Seq<Piece> {
        self.stack@.map_values(|c: Colour| flat(c)).push(self.top)
    }

    pub fn new(top: Piece) -> (tile: Self)
        ensures
            tile.top == top,
            tile.stack@ == Seq::<Colour>::empty(),
            tile.pieces() == seq![top],
    {
        let tile = Tile { top, stack: Vec::new() };
        assert(tile.pieces() =~= seq![top]);
        tile
    }

    /// Get the number of pieces on this tile.
    pub fn size(&self) -> (n: usize)
        requires
            self.stack@.len() < usize::MAX,
        ensures
            n == self.pieces().len(),
    {
        1 + self.stack.len()
    }

    /// Try to stack the piece on this tile.
    pub fn stack(self, piece: Piece) -> (r: Result<Self, String>)
        ensures
            r is Ok <==> may_stack(self.top.shape, piece),
            r matches Ok(t) ==> t.pieces() == flatten_top(self.pieces()).push(piece),
            r matches Ok(t) ==> t.top == piece && t.stack@ == self.stack@.push(self.top.colour),
            r matches Err(e) ==> e@ == (if self.top.shape == Shape::Wall {
                wall_error()
            } else {
                capstone_error()
            }),
    {
        // Only allow stacking on top of flats, or flattening walls.
        match self.top.shape {
            Shape::Flat => {},
            Shape::Wall => {
                if !matches!(piece.shape, Shape::Capstone) {
                    let msg = "can only flatten a wall with a capstone";
                    proof {
                        reveal_strlit("can only flatten a wall with a capstone");
                    }
                    return Err(String::from_str(msg));
                }
            },
            Shape::Capstone => {
                let msg = "cannot create a stack on top of a capstone";
                proof {
                    reveal_strlit("cannot create a stack on top of a capstone");
                }
                return Err(String::from_str(msg));
            },
        }
        let Tile { top, mut stack } = self;
        stack.push(top.colour);
        let t = Tile { top: piece, stack };
        assert(t.pieces() =~= flatten_top(self.pieces()).push(piece));
        Ok(t)
    }

    /// Try taking the top `amount` pieces from this tile, with a carry
    /// limit of `N`.
    /// The returned pieces are ordered top to bottom; the remaining tile (if
    /// any pieces are left) is returned beside them.
    pub fn take<const N: usize>(self, amount: usize) -> (r: Result<(Option<Tile>, Vec<Piece>), String>)
        requires
            self.stack@.len() < usize::MAX,
        ensures
            r is Ok <==> (0 < amount && amount <= N && amount <= self.pieces().len()),
            r matches Ok((left, carry)) ==> carry@ == carried(self.pieces(), amount as nat),
            r matches Ok((left, carry)) ==> (left is None <==> amount == self.pieces().len()),
            r matches Ok((left, carry)) ==> square_pieces(left) == self.pieces().take(
                self.pieces().len() - amount,
            ),
            r matches Err(e) ==> e@ == (if amount == 0 {
                take_zero_error()
            } else if amount > N {
                carry_limit_error(amount as nat)
            } else {
                too_many_error(amount as nat, self.pieces().len())
            }),
    {
        let count = self.size();
        if amount == 0 {
            let msg = "cannot take 0 from a tile";
            proof {
                reveal_strlit("cannot take 0 from a tile");
            }
            return Err(String::from_str(msg));
        } else if amount > N {
            let msg = "cannot take more than the carry limit, amount=";
            proof {
                reveal_strlit("cannot take more than the carry limit, amount=");
            }
            let mut e = String::from_str(msg);
            push_decimal(&mut e, amount as u64);
            return Err(e);
        } else if amount > count {
            let msg1 = "cannot take more pieces than there are on the tile, amount=";
            let msg2 = ", count=";
            proof {
                reveal_strlit("cannot take more pieces than there are on the tile, amount=");
                reveal_strlit(", count=");
            }
            let mut e = String::from_str(msg1);
            push_decimal(&mut e, amount as u64);
            e.append(msg2);
            push_decimal(&mut e, count as u64);
            return Err(e);
        }
        let ghost pieces = self.pieces();
        let Tile { top, mut stack } = self;
        let mut carry: Vec<Piece> = Vec::new();
        carry.push(top);
        let mut i: usize = 1;
        while i < amount
            invariant
                1 <= i <= amount,
                amount <= count,
                count == pieces.len(),
                pieces == self.pieces(),
                stack@ == self.stack@.take(count - i),
                carry@ == carried(pieces, i as nat),
            decreases amount - i,
        {
            let c = stack.pop().unwrap();
            carry.push(Piece { colour: c, shape: Shape::Flat });
            proof {
                assert(self.stack@[count - 1 - i] == c);
                assert(pieces[count - 1 - i] == flat(c));
                assert(carry@ =~= carried(pieces, (i + 1) as nat));
            }
            i = i + 1;
            assert(stack@ =~= self.stack@.take(count - i));
        }
        let left = if stack.len() == 0 {
            None
        } else {
            let c = stack.pop().unwrap();
            let t = Tile { top: Piece { colour: c, shape: Shape::Flat }, stack };
            assert(c == self.stack@[count - amount - 1]);
            assert(t.pieces() =~= pieces.take(count - amount));
            Some(t)
        };
        proof {
            if left is None {
                assert(pieces.take(count - amount) =~= Seq::<Piece>::empty());
            }
        }
        Ok((left, carry))
    }
}

/// Stacking a piece and then taking one piece back hands out exactly that
/// piece and leaves the stack as it was, with its top turned into a flat.
pub proof fn law_take_returns_stacked(tile: Tile, piece: Piece, stacked: Tile)
    requires
        stacked.pieces() == flatten_top(tile.pieces()).push(piece),
    ensures
        carried(stacked.pieces(), 1) == seq![piece],
        stacked.pieces().take(stacked.pieces().len() - 1) == flatten_top(tile.pieces()),
        tile.top.shape == Shape::Flat ==> flatten_top(tile.pieces()) == tile.pieces(),
{
    assert(carried(stacked.pieces(), 1) =~= seq![piece]);
    assert(stacked.pieces().take(stacked.pieces().len() - 1) =~= flatten_top(tile.pieces()));
    if tile.top.shape == Shape::Flat {
        assert(flatten_top(tile.pieces()) =~= tile.pieces());
    }
}

/// Taking pieces splits a stack without losing or reordering any piece:
/// what is left, followed by the carried pieces turned bottom first, is the
/// stack as it was.
pub proof fn law_take_conserves_pieces(pieces: Seq<Piece>, amount: nat)
    requires
        0 < amount <= pieces.len(),
    ensures
        pieces.take(pieces.len() - amount) + carried(pieces, amount).reverse() == pieces,
{
    assert(pieces.take(pieces.len() - amount) + carried(pieces, amount).reverse() =~= pieces);
}

/// Restack `pieces`, bottom first, onto a stack of `base` one at a time,
/// as `Tile::stack` does (and `Tile::new` on an empty square); none when a
/// piece may not go on top.
pub open spec fn restack(base: Seq<Piece>, pieces: Seq<Piece>) -> Option<Seq<Piece>>
    decreases pieces.len(),
{
    if pieces.len() == 0 {
        Some(base)
    } else if base.len() == 0 {
        restack(seq![pieces[0]], pieces.drop_first())
    } else if may_stack(base.last().shape, pieces[0]) {
        restack(flatten_top(base).push(pieces[0]), pieces.drop_first())
    } else {
        None
    }
}

proof fn lemma_restack_from(tile: Tile, j: int)
    requires
        0 <= j <= tile.pieces().len(),
    ensures
        restack(
            tile.pieces().take(j),
            tile.pieces().subrange(j, tile.pieces().len() as int),
        ) == Some(tile.pieces()),
    decreases tile.pieces().len() - j,
{
    let p = tile.pieces();
    let n = p.len() as int;
    let rest = p.subrange(j, n);
    if j == n {
        assert(p.take(n) =~= p);
        assert(rest =~= Seq::<Piece>::empty());
    } else {
        lemma_restack_from(tile, j + 1);
        assert(rest[0] == p[j]);
        assert(rest.drop_first() =~= p.subrange(j + 1, n));
        if j == 0 {
            assert(seq![p[0]] =~= p.take(1));
        } else {
            let base = p.take(j);
            assert(base.last() == p[j - 1]);
            assert(p[j - 1] == flat(tile.stack@[j - 1]));
            assert(flatten_top(base) =~= base);
            assert(base.push(p[j]) =~= p.take(j + 1));
        }
    }
}

/// Restacking the pieces that `Tile::take` carries, bottom first, onto what
/// it leaves rebuilds the tile: every piece may go back on top, and the
/// stack comes back piece by piece.
pub proof fn law_restack_rebuilds_tile(tile: Tile, amount: nat)
    requires
        0 < amount <= tile.pieces().len(),
    ensures
        restack(
            tile.pieces().take(tile.pieces().len() - amount),
            carried(tile.pieces(), amount).reverse(),
        ) == Some(tile.pieces()),
{
    let p = tile.pieces();
    let n = p.len() as int;
    assert(carried(p, amount).reverse() =~= p.subrange(n - amount, n));
    lemma_restack_from(tile, n - amount);
}

/// A tile is its pieces: two tiles with the same pieces have the same top
/// and the same stack, so rebuilding the pieces rebuilds the tile.
pub proof fn law_pieces_determine_tile(a: Tile, b: Tile)
    requires
        a.pieces() == b.pieces(),
    ensures
        a.top == b.top,
        a.stack@ == b.stack@,
{
    let n = a.stack@.len();
    assert(a.pieces().len() == n + 1);
    assert(a.top == a.pieces()[n as int]);
    assert(b.top == b.pieces()[n as int]);
    assert forall|i: int| 0 <= i < n implies a.stack@[i] == b.stack@[i] by {
        assert(a.pieces()[i] == flat(a.stack@[i]));
        assert(b.pieces()[i] == flat(b.stack@[i]));
    }
    assert(a.stack@ =~= b.stack@);
}

} // verus!
