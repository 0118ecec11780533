//! Moves in PTN and positions in TPS, read with the `takparse` crate.
//! Each is read into takparse's type and written back, which gives the
//! canonical text of what was read; the results are named, since the two
//! grammars take pages to state.
use vstd::prelude::*;

use takparse::{Color, Piece as Top, Stack, Tps};

use crate::colour::Colour;
use crate::repr::supported_size;
use crate::text::{parse_integer, parsed_integer, split_at_char, split_char};
use crate::tile::{Piece, Shape, Tile};

verus! {

/// What `canonical_move` returns: the move that `text` holds, written back
/// in PTN; none when `text` is not a move.
pub uninterp spec fn takparse_move(text: Seq<char>) -> Option<Seq<char>>;

/// What `canonical_tps` returns: the position that `text` holds, written
/// back in TPS; none when `text` is not a TPS string.
pub uninterp spec fn takparse_tps(text: Seq<char>) -> Option<Seq<char>>;

/// The number of squares an entry of a TPS row covers: a run `x` or `xN`
/// covers `N` squares (1 without a number), read as `usize::from_str`
/// reads it; anything else is one square. None when the run's number is
/// not a `usize`.
pub open spec fn entry_squares(entry: Seq<char>) -> Option<int> {
    if entry.len() > 0 && entry[0] == 'x' {
        if entry.len() == 1 {
            Some(1)
        } else {
            parsed_integer(entry.drop_first(), 0, usize::MAX as int)
        }
    } else {
        Some(1)
    }
}

/// The number of squares that the entries of a TPS row cover; none when a
/// run's number is not a `usize`.
pub open spec fn row_squares(entries: Seq<Seq<char>>) -> Option<int>
    decreases entries.len(),
{
    if entries.len() == 0 {
        Some(0)
    } else {
        match (row_squares(entries.drop_last()), entry_squares(entries.last())) {
            (Some(a), Some(b)) => Some(a + b),
            _ => None,
        }
    }
}

/// The rows of the board part of a TPS string: none for an empty board.
pub open spec fn board_rows(board: Seq<char>) -> Seq<Seq<char>> {
    if board.len() == 0 {
        Seq::empty()
    } else {
        split_at_char(board, '/')
    }
}

/// Whether `text` can be handed to takparse's TPS reader: it has the three
/// space-separated parts of a TPS string, and every row of its board has
/// valid runs and covers at most as many squares as the board has rows.
/// takparse refuses every other text (too few or too many parts, a run
/// that is not a `usize`, a row that does not cover exactly as many squares
/// as there are rows), except that adding up the runs of a row in a
/// `usize` can overflow first; on the texts admitted here each row adds up
/// to at most the number of rows.
pub open spec fn tps_readable(text: Seq<char>) -> bool {
    let segments = split_at_char(text, ' ');
    let rows = board_rows(segments[0]);
    &&& segments.len() == 3
    &&& forall|r: int|
        0 <= r < rows.len() ==> match row_squares(split_at_char(#[trigger] rows[r], ',')) {
            Some(t) => t <= rows.len(),
            None => false,
        }
}

proof fn lemma_row_squares_prefix(entries: Seq<Seq<char>>, i: int)
    requires
        0 <= i <= entries.len(),
        row_squares(entries) is Some,
    ensures
        row_squares(entries.take(i)) is Some,
        row_squares(entries.take(i))->0 <= row_squares(entries)->0,
    decreases entries.len(),
{
    if i < entries.len() {
        assert(entries.drop_last().take(i) =~= entries.take(i));
        lemma_row_squares_prefix(entries.drop_last(), i);
        lemma_row_squares_prefix(entries.drop_last(), entries.len() - 1);
        assert(entries.drop_last().take(entries.len() - 1) =~= entries.drop_last());
    } else {
        assert(entries.take(i) =~= entries);
    }
}

fn entry_squares_of(entry: &str) -> (r: Option<u128>)
    ensures
        r matches Some(v) ==> entry_squares(entry@) == Some(v as int) && v <= usize::MAX,
        r is None ==> entry_squares(entry@) is None,
{
    let n = entry.unicode_len();
    if n > 0 && entry.get_char(0) == 'x' {
        if n == 1 {
            Some(1)
        } else {
            let number = entry.substring_char(1, n);
            assert(number@ =~= entry@.drop_first());
            match parse_integer(number, 0, usize::MAX as i128) {
                Some(v) => {
                    assert(v <= usize::MAX);
                    Some(v as u128)
                },
                None => None,
            }
        }
    } else {
        Some(1)
    }
}

fn row_fits(row: &str, rows: usize) -> (r: bool)
    ensures
        r == match row_squares(split_at_char(row@, ',')) {
            Some(t) => t <= rows,
            None => false,
        },
{
    let entries = split_char(row, ',');
    let ghost es = entries.deep_view();
    let mut total: u128 = 0;
    let mut i: usize = 0;
    assert(es.take(0) =~= Seq::<Seq<char>>::empty());
    while i < entries.len()
        invariant
            i <= entries@.len(),
            es == entries.deep_view(),
            es == split_at_char(row@, ','),
            row_squares(es.take(i as int)) == Some(total as int),
            total <= rows,
        decreases entries@.len() - i,
    {
        assert(es[i as int] == entries[i as int]@);
        assert(es.take(i + 1).drop_last() =~= es.take(i as int));
        assert(es.take(i + 1).last() == es[i as int]);
        match entry_squares_of(entries[i].as_str()) {
            None => {
                proof {
                    if row_squares(es) is Some {
                        lemma_row_squares_prefix(es, i + 1);
                    }
                }
                return false;
            },
            Some(v) => {
                total = total + v;
                if total > rows as u128 {
                    proof {
                        if row_squares(es) is Some {
                            lemma_row_squares_prefix(es, i + 1);
                        }
                    }
                    return false;
                }
            },
        }
        i = i + 1;
    }
    assert(es.take(entries@.len() as int) =~= es);
    true
}

/// Whether `text` can be handed to takparse's TPS reader.
pub fn tps_text_readable(text: &str) -> (r: bool)
    ensures
        r == tps_readable(text@),
{
    let segments = split_char(text, ' ');
    if segments.len() != 3 {
        return false;
    }
    assert(segments.deep_view()[0] == segments[0]@);
    let board = segments[0].as_str();
    if board.unicode_len() == 0 {
        return true;
    }
    let rows = split_char(board, '/');
    let ghost rs = rows.deep_view();
    assert(rs == board_rows(split_at_char(text@, ' ')[0]));
    let mut r: usize = 0;
    while r < rows.len()
        invariant
            r <= rows@.len(),
            rs == rows.deep_view(),
            rs == board_rows(split_at_char(text@, ' ')[0]),
            split_at_char(text@, ' ').len() == 3,
            forall|j: int|
                0 <= j < r ==> match row_squares(split_at_char(#[trigger] rs[j], ',')) {
                    Some(t) => t <= rs.len(),
                    None => false,
                },
        decreases rows@.len() - r,
    {
        assert(rs[r as int] == rows[r as int]@);
        if !row_fits(rows[r].as_str(), rows.len()) {
            return false;
        }
        r = r + 1;
    }
    true
}

/// The canonical TPS of `text`: none when the text is not readable or not
/// a TPS string.
pub open spec fn tps_reading(text: Seq<char>) -> Option<Seq<char>> {
    if tps_readable(text) {
        takparse_tps(text)
    } else {
        None
    }
}

/// The rows and side to move of `text`: none when the text is not readable
/// or not a TPS string.
pub open spec fn squares_reading(text: Seq<char>) -> Option<(Seq<Seq<SquareView>>, Colour)> {
    if tps_readable(text) {
        takparse_squares(text)
    } else {
        None
    }
}

/// The canonical TPS of `text`, when it is readable and a TPS string.
pub fn read_tps(text: &str) -> (r: Option<String>)
    ensures
        r.deep_view() == tps_reading(text@),
{
    if tps_text_readable(text) {
        canonical_tps(text)
    } else {
        None
    }
}

/// A square of a TPS board as plain values: the shape of the top piece
/// and the colours of the stack, bottom first, the top piece's last.
pub type SquareView = Option<(Shape, Seq<Colour>)>;

/// What `tps_squares` returns: the rows of the position that `text` holds,
/// first row first, each square in order, and the side to move; none when
/// `text` is not a TPS string.
pub uninterp spec fn takparse_squares(text: Seq<char>) -> Option<(Seq<Seq<SquareView>>, Colour)>;

/// The rows as plain values.
pub open spec fn squares_view(rows: Seq<Vec<Option<(Shape, Vec<Colour>)>>>) -> Seq<Seq<SquareView>> {
    rows.map_values(
        |row: Vec<Option<(Shape, Vec<Colour>)>>|
            row@.map_values(
                |square: Option<(Shape, Vec<Colour>)>|
                    match square {
                        Some((shape, colours)) => Some((shape, colours@)),
                        None => None,
                    },
            ),
    )
}

/// Calls `<takparse::Tps as FromStr>::from_str(text)` and, for a position,
/// gives its rows (`Tps::board_2d`), each square's top piece (`Stack::top`)
/// and colours (`Stack::colors`), and the side to move (`Tps::color`), each
/// turned into the library's types. The contract only ties the result to
/// the text through the name `takparse_squares`. The `requires` leaves out
/// texts on which the reader overflows (see `tps_readable`).
#[verifier::external_body]
pub(crate) fn tps_squares(text: &str) -> (r: Option<(Vec<Vec<Option<(Shape, Vec<Colour>)>>>, Colour)>)
    requires
        tps_readable(text@),
    ensures
        r is Some <==> takparse_squares(text@) is Some,
        r matches Some((rows, to_move)) ==> takparse_squares(text@) == Some(
            (squares_view(rows@), to_move),
        ),
{
    let tps = text.parse::<Tps>().ok()?;
    let colour = |c| match c {
        Color::White => Colour::White,
        Color::Black => Colour::Black,
    };
    let shape = |p| match p {
        Top::Flat => Shape::Flat,
        Top::Wall => Shape::Wall,
        Top::Cap => Shape::Capstone,
    };
    let square = |s: &Stack| (shape(s.top()), s.colors().map(colour).collect());
    let rows = tps.board_2d().map(|row| row.map(|sq| sq.map(square)).collect()).collect();
    Some((rows, colour(tps.color())))
}

/// Calls `<takparse::Move as FromStr>::from_str(text)` and, for a move,
/// writes it back with its `Display` (`ToString`). The contract only ties
/// the result to the text through the name `takparse_move`; which texts are
/// moves is left unsaid.
#[verifier::external_body]
pub(crate) fn canonical_move(text: &str) -> (r: Option<String>)
    ensures
        r.deep_view() == takparse_move(text@),
{
    text.parse::<takparse::Move>().ok().map(|m| m.to_string())
}

/// Calls `<takparse::Tps as FromStr>::from_str(text)` and, for a position,
/// writes it back with its `Display` (`ToString`). The contract only ties
/// the result to the text through the name `takparse_tps`; which texts are
/// positions is left unsaid. The `requires` leaves out texts on which the
/// reader overflows (see `tps_readable`).
#[verifier::external_body]
pub(crate) fn canonical_tps(text: &str) -> (r: Option<String>)
    requires
        tps_readable(text@),
    ensures
        r.deep_view() == takparse_tps(text@),
{
    text.parse::<Tps>().ok().map(|t| t.to_string())
}

/// Whether `rows` are the rows of an `n`x`n` board with a colour for every
/// piece.
pub open spec fn board_shaped(rows: Seq<Seq<SquareView>>, n: nat) -> bool {
    &&& rows.len() == n
    &&& forall|r: int| 0 <= r < n ==> (#[trigger] rows[r]).len() == n
    &&& forall|r: int, x: int|
        0 <= r < n && 0 <= x < n ==> match #[trigger] rows[r][x] {
            Some((_, colours)) => colours.len() > 0,
            None => true,
        }
}

/// Whether `tile` is what the TPS square `square` holds.
pub open spec fn tile_is(tile: Option<Tile>, square: SquareView) -> bool {
    match (tile, square) {
        (None, None) => true,
        (Some(t), Some((shape, colours))) => {
            &&& t.top == (Piece { colour: colours.last(), shape })
            &&& t.stack@ == colours.drop_last()
        },
        _ => false,
    }
}

/// Whether `board` holds the rows of an `n`x`n` TPS board: square
/// `n * y + x` is square `x` of row `n - 1 - y`, since the first row of a
/// TPS string is the top row.
pub open spec fn board_is(board: Seq<Option<Tile>>, rows: Seq<Seq<SquareView>>, n: nat) -> bool {
    &&& board.len() == n * n
    &&& forall|y: int, x: int|
        0 <= y < n && 0 <= x < n ==> tile_is(#[trigger] board[n * y + x], rows[n - 1 - y][x])
}

proof fn lemma_square_before(n: int, j: int, i: int, y: int)
    requires
        0 <= j < y,
        0 <= i < n,
    ensures
        0 <= n * j + i < n * y,
{
    assert(n * j + i < n * y) by (nonlinear_arith)
        requires
            0 <= j < y,
            0 <= i < n,
    ;
    assert(0 <= n * j) by (nonlinear_arith)
        requires
            0 <= j,
            0 <= i < n,
    ;
}

fn tile_of(square: &Option<(Shape, Vec<Colour>)>) -> (r: Option<Tile>)
    requires
        square matches Some((_, colours)) ==> colours@.len() > 0,
    ensures
        tile_is(
            r,
            match square {
                Some((shape, colours)) => Some((*shape, colours@)),
                None => None,
            },
        ),
{
    match square {
        None => None,
        Some((shape, colours)) => {
            let mut stack = colours.clone();
            assert(stack@ == colours@);
            let top = stack.pop().unwrap();
            Some(Tile { top: Piece { colour: top, shape: *shape }, stack })
        },
    }
}

/// The board of a TPS string for an `n`x`n` board, square `n * y + x`,
/// and the side to move; none when the text is not a TPS string or not one
/// of an `n`x`n` board.
pub fn tps_board(tps: &str, n: usize) -> (r: Option<(Vec<Option<Tile>>, Colour)>)
    requires
        supported_size(n as int),
    ensures
        r is Some <==> (squares_reading(tps@) matches Some((rows, _)) && board_shaped(rows, n as nat)),
        r matches Some((board, to_move)) ==> (squares_reading(tps@) matches Some((rows, c)) && c
            == to_move && board_is(board@, rows, n as nat)),
{
    if !tps_text_readable(tps) {
        return None;
    }
    let (rows, to_move) = match tps_squares(tps) {
        Some(parsed) => parsed,
        None => return None,
    };
    let ghost view = squares_view(rows@);
    if rows.len() != n {
        return None;
    }
    let mut r: usize = 0;
    while r < n
        invariant
            r <= n,
            rows@.len() == n,
            view == squares_view(rows@),
            takparse_squares(tps@) == Some((view, to_move)),
            tps_readable(tps@),
            forall|i: int| 0 <= i < r ==> (#[trigger] view[i]).len() == n,
            forall|i: int, x: int|
                0 <= i < r && 0 <= x < n ==> match #[trigger] view[i][x] {
                    Some((_, colours)) => colours.len() > 0,
                    None => true,
                },
        decreases n - r,
    {
        let row = &rows[r];
        assert(view[r as int] == row@.map_values(
            |square: Option<(Shape, Vec<Colour>)>|
                match square {
                    Some((shape, colours)) => Some((shape, colours@)),
                    None => None,
                },
        ));
        if row.len() != n {
            assert(view[r as int].len() != n);
            assert(!board_shaped(view, n as nat));
            return None;
        }
        let mut x: usize = 0;
        while x < n
            invariant
                x <= n,
                row@.len() == n,
                r < n,
                rows@.len() == n,
                view == squares_view(rows@),
                takparse_squares(tps@) == Some((view, to_move)),
                tps_readable(tps@),
                *row == rows@[r as int],
                forall|j: int|
                    0 <= j < x ==> match #[trigger] view[r as int][j] {
                        Some((_, colours)) => colours.len() > 0,
                        None => true,
                    },
            decreases n - x,
        {
            if let Some((_, colours)) = &row[x] {
                if colours.len() == 0 {
                    assert(view[r as int][x as int] matches Some((_, c)) && c.len() == 0);
                    assert(!board_shaped(view, n as nat));
                    return None;
                }
            }
            x = x + 1;
        }
        r = r + 1;
    }
    assert(board_shaped(view, n as nat));
    let mut board: Vec<Option<Tile>> = Vec::new();
    let mut y: usize = 0;
    while y < n
        invariant
            y <= n,
            supported_size(n as int),
            rows@.len() == n,
            view == squares_view(rows@),
            board_shaped(view, n as nat),
            board@.len() == n * y,
            forall|j: int, x: int|
                0 <= j < y && 0 <= x < n ==> tile_is(#[trigger] board@[n * j + x], view[n - 1 - j][x]),
        decreases n - y,
    {
        let row = &rows[n - 1 - y];
        assert(view[n - 1 - y] =~= row@.map_values(
            |square: Option<(Shape, Vec<Colour>)>|
                match square {
                    Some((shape, colours)) => Some((shape, colours@)),
                    None => None,
                },
        ));
        let mut x: usize = 0;
        while x < n
            invariant
                x <= n,
                y < n,
                supported_size(n as int),
                rows@.len() == n,
                view == squares_view(rows@),
                board_shaped(view, n as nat),
                *row == rows@[n - 1 - y],
                row@.len() == n,
                board@.len() == n * y + x,
                forall|j: int, i: int|
                    0 <= j < y && 0 <= i < n ==> tile_is(#[trigger] board@[n * j + i], view[n - 1 - j][i]),
                forall|i: int| 0 <= i < x ==> tile_is(#[trigger] board@[n * y + i], view[n - 1 - y][i]),
            decreases n - x,
        {
            assert(view[n - 1 - y][x as int] == (match row@[x as int] {
                Some((shape, colours)) => Some((shape, colours@)),
                None => None,
            }));
            let tile = tile_of(&row[x]);
            let ghost before = board@;
            board.push(tile);
            proof {
                assert(board@ == before.push(tile));
                assert forall|j: int, i: int|
                    0 <= j < y && 0 <= i < n implies tile_is(#[trigger] board@[n * j + i], view[n - 1 - j][i]) by {
                    lemma_square_before(n as int, j, i, y as int);
                    assert(board@[n * j + i] == before[n * j + i]);
                }
                assert forall|i: int| 0 <= i < x + 1 implies tile_is(#[trigger] board@[n * y + i], view[n - 1 - y][i]) by {
                    if i < x {
                        assert(board@[n * y + i] == before[n * y + i]);
                    }
                }
            }
            x = x + 1;
        }
        proof {
            assert(n * y + n == n * (y + 1)) by (nonlinear_arith);
            assert forall|j: int, i: int|
                0 <= j < y + 1 && 0 <= i < n implies tile_is(#[trigger] board@[n * j + i], view[n - 1 - j][i]) by {
                if j == y {
                    assert(tile_is(board@[n * y + i], view[n - 1 - y][i]));
                }
            }
        }
        y = y + 1;
    }
    Some((board, to_move))
}

} // verus!
