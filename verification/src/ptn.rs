//! Reading PTN game files and position strings.
use vstd::prelude::*;

use crate::notation::{canonical_move, read_tps, takparse_move, tps_reading};
use crate::pattern::{
    capture_pairs, regex_capture_pairs, regex_replace_all, regex_split, replace_all, split,
};
use crate::repr::{default_starting_stones, starting_stones, supported_size};
use crate::text::{
    number_field, parse_integer, parsed_integer, read_number, same_text, split_at_char, split_char,
};

verus! {

/// A game option: `[Key "value"]` (or with single quotes).
pub const OPTIONS_PATTERN: &'static str = "\\[(\\S+) [\"'](.*?)[\"']\\]";

/// A comment: `{...}` on one line.
pub const COMMENTS_PATTERN: &'static str = "\\{.*?\\}";

/// What separates plies: move numbers, whitespace, game results and the
/// `--` that stands for a skipped white move.
pub const PLY_SPLIT_PATTERN: &'static str = "\\s*\\d*\\. |\\s+|1-0|R-0|F-0|0-1|0-R|0-F|1/2-1/2|--";

/// A PTN game option that holds a number.
#[derive(Clone, Copy, Debug, PartialEq, Eq, Structural)]
pub enum PtnOption {
    Komi,
    Flats,
    Caps,
    Size,
}

/// Why a PTN file was refused.
#[derive(Clone, Copy, Debug, PartialEq, Eq, Structural)]
pub enum PtnError {
    /// The value of the option is not a number of the option's type
    /// (`i8` for `Komi`, `u8` for `Flats` and `Caps`, `usize` for `Size`).
    InvalidNumber(PtnOption),
    /// The `Size` option names another board size than the one asked for.
    SizeMismatch { expected: usize, found: usize },
    /// The komi, doubled, does not fit the half-komi of the game (`i8`).
    KomiOutOfRange,
    /// A pattern of the grammar did not compile, or a match lacked a group.
    Pattern,
    /// The `TPS` option does not hold a position that can be read (see
    /// `tps_readable`).
    InvalidTps,
    /// A ply is not a move.
    InvalidMove,
}

/// The starting position of a PTN game.
#[derive(Clone, Debug, PartialEq, Eq)]
pub struct PtnGame {
    /// Twice the komi.
    pub half_komi: i8,
    /// The `TPS` option, in canonical TPS, if the game starts from a
    /// position.
    pub tps: Option<String>,
    /// Flat stones and capstones each player starts with, when the game
    /// starts from the empty board (no `TPS` option).
    pub reserves: Option<(u8, u8)>,
}

/// Komi, flats, caps, and TPS read from the options so far.
pub type OptionValues = (int, int, int, Option<Seq<char>>);

/// The effect of one game option on what was read before it.
pub open spec fn option_step(
    n: nat,
    acc: Result<OptionValues, PtnError>,
    option: (Option<Seq<char>>, Option<Seq<char>>),
) -> Result<OptionValues, PtnError> {
    match acc {
        Err(e) => Err(e),
        Ok((komi, stones, caps, tps)) => match option {
            (Some(key), Some(value)) => {
                if key == "Komi"@ {
                    match parsed_integer(value, -128, 127) {
                        Some(k) => Ok((k, stones, caps, tps)),
                        None => Err(PtnError::InvalidNumber(PtnOption::Komi)),
                    }
                } else if key == "Flats"@ {
                    match parsed_integer(value, 0, 255) {
                        Some(v) => Ok((komi, v, caps, tps)),
                        None => Err(PtnError::InvalidNumber(PtnOption::Flats)),
                    }
                } else if key == "Caps"@ {
                    match parsed_integer(value, 0, 255) {
                        Some(v) => Ok((komi, stones, v, tps)),
                        None => Err(PtnError::InvalidNumber(PtnOption::Caps)),
                    }
                } else if key == "Size"@ {
                    match parsed_integer(value, 0, usize::MAX as int) {
                        Some(v) => if v == n {
                            Ok((komi, stones, caps, tps))
                        } else {
                            Err(PtnError::SizeMismatch { expected: n as usize, found: v as usize })
                        },
                        None => Err(PtnError::InvalidNumber(PtnOption::Size)),
                    }
                } else if key == "TPS"@ {
                    match tps_reading(value) {
                        Some(t) => Ok((komi, stones, caps, Some(t))),
                        None => Err(PtnError::InvalidTps),
                    }
                } else {
                    Ok((komi, stones, caps, tps))
                }
            },
            _ => Err(PtnError::Pattern),
        },
    }
}

/// The effect of a sequence of game options, in order.
pub open spec fn options_outcome(
    n: nat,
    options: Seq<(Option<Seq<char>>, Option<Seq<char>>)>,
) -> Result<OptionValues, PtnError>
    decreases options.len(),
{
    if options.len() == 0 {
        Ok((0, starting_stones(n).0 as int, starting_stones(n).1 as int, None))
    } else {
        option_step(n, options_outcome(n, options.drop_last()), options.last())
    }
}

/// The non-empty pieces, in order.
pub open spec fn non_empty(pieces: Seq<Seq<char>>) -> Seq<Seq<char>>
    decreases pieces.len(),
{
    if pieces.len() == 0 {
        Seq::empty()
    } else if pieces.last().len() == 0 {
        non_empty(pieces.drop_last())
    } else {
        non_empty(pieces.drop_last()).push(pieces.last())
    }
}

/// The plies of a PTN file: the file without options and comments, split
/// at move numbers, whitespace and results, without empty pieces.
pub open spec fn ptn_plies(s: Seq<char>) -> Option<Seq<Seq<char>>> {
    match regex_replace_all(OPTIONS_PATTERN@, s, ""@) {
        None => None,
        Some(without_options) => match regex_replace_all(COMMENTS_PATTERN@, without_options, ""@) {
            None => None,
            Some(without_comments) => match regex_split(PLY_SPLIT_PATTERN@, without_comments) {
                None => None,
                Some(pieces) => Some(non_empty(pieces)),
            },
        },
    }
}

/// The plies read as moves, in canonical PTN; none when one of them is not a
/// move.
pub open spec fn moves_outcome(plies: Seq<Seq<char>>) -> Option<Seq<Seq<char>>>
    decreases plies.len(),
{
    if plies.len() == 0 {
        Some(Seq::empty())
    } else {
        match moves_outcome(plies.drop_last()) {
            None => None,
            Some(moves) => match takparse_move(plies.last()) {
                None => None,
                Some(m) => Some(moves.push(m)),
            },
        }
    }
}

/// What reading a PTN file for an `n`x`n` board gives: half-komi, TPS,
/// reserves, and moves.
pub open spec fn ptn_outcome(n: nat, s: Seq<char>) -> Result<
    (int, Option<Seq<char>>, Option<(u8, u8)>, Seq<Seq<char>>),
    PtnError,
> {
    match regex_capture_pairs(OPTIONS_PATTERN@, s) {
        None => Err(PtnError::Pattern),
        Some(options) => match options_outcome(n, options) {
            Err(e) => Err(e),
            Ok((komi, stones, caps, tps)) => if !(-64 <= komi <= 63) {
                Err(PtnError::KomiOutOfRange)
            } else {
                match ptn_plies(s) {
                    None => Err(PtnError::Pattern),
                    Some(plies) => match moves_outcome(plies) {
                        None => Err(PtnError::InvalidMove),
                        Some(moves) => Ok(
                            (
                                2 * komi,
                                tps,
                                if tps is None {
                                    Some((stones as u8, caps as u8))
                                } else {
                                    None
                                },
                                moves,
                            ),
                        ),
                    },
                }
            },
        },
    }
}

/// Once an option is refused, the options after it change nothing.
proof fn lemma_error_persists(
    n: nat,
    options: Seq<(Option<Seq<char>>, Option<Seq<char>>)>,
    k: int,
)
    requires
        0 <= k <= options.len(),
        options_outcome(n, options.take(k)) is Err,
    ensures
        options_outcome(n, options) == options_outcome(n, options.take(k)),
    decreases options.len(),
{
    if k < options.len() {
        assert(options.drop_last().take(k) =~= options.take(k));
        lemma_error_persists(n, options.drop_last(), k);
    } else {
        assert(options.take(k) =~= options);
    }
}

fn keep_non_empty(pieces: Vec<String>) -> (r: Vec<String>)
    ensures
        r.deep_view() == non_empty(pieces.deep_view()),
{
    let mut r: Vec<String> = Vec::new();
    let mut i: usize = 0;
    while i < pieces.len()
        invariant
            i <= pieces.len(),
            r.deep_view() == non_empty(pieces.deep_view().take(i as int)),
        decreases pieces.len() - i,
    {
        let piece = &pieces[i];
        proof {
            assert(pieces.deep_view().take(i + 1).drop_last() =~= pieces.deep_view().take(i as int));
        }
        if piece.as_str().unicode_len() > 0 {
            r.push(piece.clone());
            proof {
                assert(r.deep_view() =~= non_empty(pieces.deep_view().take(i as int)).push(pieces[i as int]@));
            }
        }
        i = i + 1;
    }
    assert(pieces.deep_view().take(pieces.len() as int) =~= pieces.deep_view());
    r
}

/// Once a ply is not a move, the plies after it change nothing.
proof fn lemma_bad_move_persists(plies: Seq<Seq<char>>, k: int)
    requires
        0 <= k <= plies.len(),
        moves_outcome(plies.take(k)) is None,
    ensures
        moves_outcome(plies) is None,
    decreases plies.len(),
{
    if k < plies.len() {
        assert(plies.drop_last().take(k) =~= plies.take(k));
        lemma_bad_move_persists(plies.drop_last(), k);
    } else {
        assert(plies.take(k) =~= plies);
    }
}

fn read_moves(plies: &Vec<String>) -> (r: Option<Vec<String>>)
    ensures
        r.deep_view() == moves_outcome(plies.deep_view()),
{
    let ghost all = plies.deep_view();
    let mut moves: Vec<String> = Vec::new();
    assert(all.take(0) =~= Seq::<Seq<char>>::empty());
    assert(moves.deep_view() =~= Seq::<Seq<char>>::empty());
    let mut i: usize = 0;
    while i < plies.len()
        invariant
            i <= plies.len(),
            all == plies.deep_view(),
            moves_outcome(all.take(i as int)) == Some(moves.deep_view()),
        decreases plies.len() - i,
    {
        proof {
            assert(all.take(i + 1).drop_last() =~= all.take(i as int));
            assert(all.take(i + 1).last() == plies[i as int]@);
        }
        match canonical_move(plies[i].as_str()) {
            None => {
                proof {
                    lemma_bad_move_persists(all, i + 1);
                }
                return None;
            },
            Some(m) => {
                let ghost before = moves.deep_view();
                moves.push(m);
                assert(moves.deep_view() =~= before.push(m@));
            },
        }
        i = i + 1;
    }
    assert(all.take(plies.len() as int) =~= all);
    Some(moves)
}

/// Read a PTN game file for an `N`x`N` board: its starting position and its
/// moves, in canonical PTN.
///
/// Options are read in order: `Komi` (an `i8`), `Flats` and `Caps` (`u8`
/// reserve counts), `Size` (which must be `N`) and `TPS` (a starting position,
/// which makes the reserves follow from the position); others are ignored.
/// Then options and `{...}` comments are removed, the rest is split at
/// move numbers, whitespace and results, and each piece is read as a move.
pub fn parse_ptn<const N: usize>(s: &str) -> (r: Result<(PtnGame, Vec<String>), PtnError>)
    requires
        supported_size(N as int),
    ensures
        r is Ok <==> ptn_outcome(N as nat, s@) is Ok,
        r matches Err(e) ==> ptn_outcome(N as nat, s@) == Err::<
            (int, Option<Seq<char>>, Option<(u8, u8)>, Seq<Seq<char>>),
            PtnError,
        >(e),
        r matches Ok((game, plies)) ==> ptn_outcome(N as nat, s@) == Ok::<_, PtnError>(
            (game.half_komi as int, game.tps.deep_view(), game.reserves, plies.deep_view()),
        ),
{
    // Parse game options.
    let options = match capture_pairs(OPTIONS_PATTERN, s) {
        Some(options) => options,
        None => return Err(PtnError::Pattern),
    };
    let (default_stones, default_caps) = default_starting_stones(N);
    let mut komi: i8 = 0;
    let mut stones: u8 = default_stones;
    let mut caps: u8 = default_caps;
    let mut tps: Option<String> = None;
    let ghost all = options.deep_view();
    let mut i: usize = 0;
    while i < options.len()
        invariant
            i <= options.len(),
            all == options.deep_view(),
            regex_capture_pairs(OPTIONS_PATTERN@, s@) == Some(all),
            supported_size(N as int),
            options_outcome(N as nat, all.take(i as int)) == Ok::<OptionValues, PtnError>(
                (komi as int, stones as int, caps as int, tps.deep_view()),
            ),
        decreases options.len() - i,
    {
        proof {
            assert(all.take(i + 1).drop_last() =~= all.take(i as int));
            assert(all.take(i + 1).last() == all[i as int]);
        }
        let (key, value) = match (&options[i].0, &options[i].1) {
            (Some(key), Some(value)) => (key, value),
            _ => {
                proof {
                    lemma_error_persists(N as nat, all, i + 1);
                }
                return Err(PtnError::Pattern)
            },
        };
        if same_text(key.as_str(), "Komi") {
            match parse_integer(value.as_str(), -128, 127) {
                Some(v) => komi = v as i8,
                None => {
                    proof {
                        lemma_error_persists(N as nat, all, i + 1);
                    }
                    return Err(PtnError::InvalidNumber(PtnOption::Komi))
                },
            }
        } else if same_text(key.as_str(), "Flats") {
            match parse_integer(value.as_str(), 0, 255) {
                Some(v) => stones = v as u8,
                None => {
                    proof {
                        lemma_error_persists(N as nat, all, i + 1);
                    }
                    return Err(PtnError::InvalidNumber(PtnOption::Flats))
                },
            }
        } else if same_text(key.as_str(), "Caps") {
            match parse_integer(value.as_str(), 0, 255) {
                Some(v) => caps = v as u8,
                None => {
                    proof {
                        lemma_error_persists(N as nat, all, i + 1);
                    }
                    return Err(PtnError::InvalidNumber(PtnOption::Caps))
                },
            }
        } else if same_text(key.as_str(), "Size") {
            match parse_integer(value.as_str(), 0, usize::MAX as i128) {
                Some(v) => {
                    if v as usize != N {
                        proof {
                            lemma_error_persists(N as nat, all, i + 1);
                        }
                        return Err(PtnError::SizeMismatch { expected: N, found: v as usize });
                    }
                },
                None => {
                    proof {
                        lemma_error_persists(N as nat, all, i + 1);
                    }
                    return Err(PtnError::InvalidNumber(PtnOption::Size))
                },
            }
        } else if same_text(key.as_str(), "TPS") {
            match read_tps(value.as_str()) {
                Some(t) => tps = Some(t),
                None => {
                    proof {
                        lemma_error_persists(N as nat, all, i + 1);
                    }
                    return Err(PtnError::InvalidTps)
                },
            }
        }
        i = i + 1;
    }
    proof {
        assert(all.take(options.len() as int) =~= all);
    }
    if !(-64 <= komi && komi <= 63) {
        return Err(PtnError::KomiOutOfRange);
    }
    let reserves = if tps.is_none() {
        Some((stones, caps))
    } else {
        None
    };
    let game = PtnGame { half_komi: 2 * komi, tps, reserves };

    // Remove options and comments, then split into plies.
    let without_options = match replace_all(OPTIONS_PATTERN, s, "") {
        Some(t) => t,
        None => return Err(PtnError::Pattern),
    };
    let without_comments = match replace_all(COMMENTS_PATTERN, without_options.as_str(), "") {
        Some(t) => t,
        None => return Err(PtnError::Pattern),
    };
    let pieces = match split(PLY_SPLIT_PATTERN, without_comments.as_str()) {
        Some(pieces) => pieces,
        None => return Err(PtnError::Pattern),
    };
    match read_moves(&keep_non_empty(pieces)) {
        Some(moves) => Ok((game, moves)),
        None => Err(PtnError::InvalidMove),
    }
}

/// A field of a position string after its TPS.
#[derive(Clone, Copy, Debug, PartialEq, Eq, Structural)]
pub enum PositionField {
    WhiteStones,
    WhiteCaps,
    BlackStones,
    BlackCaps,
    HalfKomi,
}

/// Why a position string was refused.
#[derive(Clone, Copy, Debug, PartialEq, Eq, Structural)]
pub enum PositionError {
    /// The string does not start with a TPS string that can be read (see
    /// `tps_readable`).
    InvalidTps,
    /// The string ends before this field.
    Missing(PositionField),
    /// The field is not a number of its type (`u8` for the reserves, `i8` for
    /// the half-komi).
    InvalidNumber(PositionField),
}

/// Stones and capstones left to each player.
#[derive(Clone, Copy, Debug, PartialEq, Eq, Structural)]
pub struct Reserves {
    pub white_stones: u8,
    pub white_caps: u8,
    pub black_stones: u8,
    pub black_caps: u8,
}

/// A position to start an analysis from.
#[derive(Clone, Debug, PartialEq, Eq)]
pub struct Position {
    /// The board, in canonical TPS.
    pub tps: String,
    /// The reserves, when the string gives them; otherwise the standard
    /// reserve counts of the position apply.
    pub reserves: Option<Reserves>,
    /// Twice the komi (4 when the string gives no reserves).
    pub half_komi: i8,
}

/// The number in field `index` of the pieces of a position string, or why
/// there is none.
pub open spec fn position_field(
    parts: Seq<Seq<char>>,
    index: int,
    field: PositionField,
    min: int,
    max: int,
) -> Result<int, PositionError> {
    match number_field(parts, index, min, max) {
        None => Err(PositionError::Missing(field)),
        Some(None) => Err(PositionError::InvalidNumber(field)),
        Some(Some(v)) => Ok(v),
    }
}

/// What reading a position string split at `;` gives: the TPS, the reserves
/// and the half-komi.
pub open spec fn position_outcome(parts: Seq<Seq<char>>) -> Result<
    (Seq<char>, Option<Reserves>, int),
    PositionError,
> {
    match tps_reading(parts[0]) {
        None => Err(PositionError::InvalidTps),
        Some(tps) => position_fields(tps, parts),
    }
}

/// The reserves and half-komi of a position string split at `;`, after its
/// TPS `tps`.
pub open spec fn position_fields(tps: Seq<char>, parts: Seq<Seq<char>>) -> Result<
    (Seq<char>, Option<Reserves>, int),
    PositionError,
> {
    if parts.len() < 2 {
        Ok((tps, None, 4))
    } else {
        match position_field(parts, 1, PositionField::WhiteStones, 0, 255) {
            Err(e) => Err(e),
            Ok(ws) => match position_field(parts, 2, PositionField::WhiteCaps, 0, 255) {
                Err(e) => Err(e),
                Ok(wc) => match position_field(parts, 3, PositionField::BlackStones, 0, 255) {
                    Err(e) => Err(e),
                    Ok(bs) => match position_field(parts, 4, PositionField::BlackCaps, 0, 255) {
                        Err(e) => Err(e),
                        Ok(bc) => match position_field(parts, 5, PositionField::HalfKomi, -128, 127) {
                            Err(e) => Err(e),
                            Ok(hk) => Ok(
                                (
                                    tps,
                                    Some(
                                        Reserves {
                                            white_stones: ws as u8,
                                            white_caps: wc as u8,
                                            black_stones: bs as u8,
                                            black_caps: bc as u8,
                                        },
                                    ),
                                    hk,
                                ),
                            ),
                        },
                    },
                },
            },
        }
    }
}

fn read_field(parts: &Vec<String>, index: usize, field: PositionField, min: i128, max: i128) -> (r:
    Result<i128, PositionError>)
    requires
        -128 <= min <= 0 <= max <= 255,
    ensures
        r matches Ok(v) ==> position_field(parts.deep_view(), index as int, field, min as int, max as int)
            == Ok::<int, PositionError>(v as int),
        r matches Err(e) ==> position_field(parts.deep_view(), index as int, field, min as int, max as int)
            == Err::<int, PositionError>(e),
{
    match read_number(parts, index, min, max) {
        None => Err(PositionError::Missing(field)),
        Some(None) => Err(PositionError::InvalidNumber(field)),
        Some(Some(v)) => Ok(v),
    }
}

/// Read a position string `TPS;white_stones;white_caps;black_stones;black_caps;half_komi`.
/// With the TPS alone, the reserves are left to the position and the
/// half-komi is 4.
pub fn parse_position<const N: usize>(s: &str) -> (r: Result<Position, PositionError>)
    ensures
        r matches Ok(p) ==> position_outcome(split_at_char(s@, ';')) == Ok::<_, PositionError>(
            (p.tps@, p.reserves, p.half_komi as int),
        ),
        r matches Err(e) ==> position_outcome(split_at_char(s@, ';')) == Err::<
            (Seq<char>, Option<Reserves>, int),
            PositionError,
        >(e),
{
    let parts = split_char(s, ';');
    proof {
        crate::text::lemma_split_at_char_non_empty(s@, ';');
    }
    assert(parts.deep_view()[0] == parts[0]@);
    let tps = match read_tps(parts[0].as_str()) {
        Some(t) => t,
        None => return Err(PositionError::InvalidTps),
    };
    if parts.len() < 2 {
        return Ok(Position { tps, reserves: None, half_komi: 4 });
    }
    let white_stones = read_field(&parts, 1, PositionField::WhiteStones, 0, 255)?;
    let white_caps = read_field(&parts, 2, PositionField::WhiteCaps, 0, 255)?;
    let black_stones = read_field(&parts, 3, PositionField::BlackStones, 0, 255)?;
    let black_caps = read_field(&parts, 4, PositionField::BlackCaps, 0, 255)?;
    let half_komi = read_field(&parts, 5, PositionField::HalfKomi, -128, 127)?;
    Ok(
        Position {
            tps,
            reserves: Some(
                Reserves {
                    white_stones: white_stones as u8,
                    white_caps: white_caps as u8,
                    black_stones: black_stones as u8,
                    black_caps: black_caps as u8,
                },
            ),
            half_komi: half_komi as i8,
        },
    )
}

} // verus!
