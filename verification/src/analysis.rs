//! The PTN header of a game analysis.
use vstd::prelude::*;

use crate::text::{decimal, push_decimal, push_signed_decimal, signed_decimal};

verus! {

/// Rust's integer division by two, which truncates toward zero.
pub open spec fn half_toward_zero(n: int) -> int {
    if n >= 0 {
        n / 2
    } else {
        -((-n) / 2)
    }
}

/// The komi as the header writes it, from twice the komi: the halved value
/// and, for an odd half-komi, `.5`.
pub open spec fn komi_text(half_komi: int) -> Seq<char> {
    signed_decimal(half_toward_zero(half_komi)) + if half_komi % 2 == 0 {
        ""@
    } else {
        ".5"@
    }
}

/// The header of an analysis: the board size and the komi.
pub open spec fn settings_text(board_size: nat, half_komi: int) -> Seq<char> {
    "[Size \""@ + decimal(board_size) + "\"]\n[Komi \""@ + komi_text(half_komi) + "\"]\n"@
}

/// One more header line: `[name "value"]`.
pub open spec fn setting_line(name: Seq<char>, value: Seq<char>) -> Seq<char> {
    "["@ + name + " \""@ + value + "\"]\n"@
}

/// The PTN header that an analysis of a game starts with.
pub fn game_settings(board_size: u8, half_komi: i8) -> (r: String)
    ensures
        r@ == settings_text(board_size as nat, half_komi as int),
{
    let mut out = String::from_str("[Size \"");
    push_decimal(&mut out, board_size as u64);
    out.append("\"]\n[Komi \"");
    let h = half_komi as i64;
    let halved: i64 = if h >= 0 {
        h / 2
    } else {
        -((-h) / 2)
    };
    push_signed_decimal(&mut out, halved);
    if half_komi % 2 != 0 {
        out.append(".5");
    }
    out.append("\"]\n");
    proof {
        reveal_strlit("");
        assert(out@ =~= settings_text(board_size as nat, half_komi as int));
    }
    out
}

/// Add a setting to the header.
pub fn add_setting(settings: &mut String, name: &str, value: &str)
    ensures
        final(settings)@ == old(settings)@ + setting_line(name@, value@),
{
    settings.append("[");
    settings.append(name);
    settings.append(" \"");
    settings.append(value);
    settings.append("\"]\n");
    assert(settings@ =~= old(settings)@ + setting_line(name@, value@));
}

/// The header states the komi exactly, a `-` and the halved magnitude with
/// `.5` for an odd half-komi, for every half-komi but -1, whose sign it drops
/// (it writes `0.5`).
pub proof fn law_komi_text_is_exact(half_komi: int)
    requires
        half_komi != -1,
    ensures
        komi_text(half_komi) == (if half_komi < 0 {
            "-"@
        } else {
            ""@
        }) + decimal((if half_komi < 0 { -half_komi } else { half_komi }) as nat / 2) + (
        if half_komi % 2 == 0 {
            ""@
        } else {
            ".5"@
        }),
{
    reveal_strlit("");
    reveal_strlit("-");
    if half_komi < 0 {
        assert(half_toward_zero(half_komi) < 0);
    }
    assert(komi_text(half_komi) =~= (if half_komi < 0 {
        "-"@
    } else {
        ""@
    }) + decimal((if half_komi < 0 { -half_komi } else { half_komi }) as nat / 2) + (
    if half_komi % 2 == 0 {
        ""@
    } else {
        ".5"@
    }));
}

/// How a move is marked in an analysis, from how much it changed the
/// evaluation.
#[derive(Clone, Copy, Debug, PartialEq, Eq, Structural)]
pub enum Mark {
    Blunder,
    Mistake,
    Strong,
    Brilliancy,
}

/// The PTN annotation of a mark.
pub open spec fn mark_text(mark: Mark) -> Seq<char> {
    match mark {
        Mark::Blunder => "??"@,
        Mark::Mistake => "?"@,
        Mark::Strong => "!"@,
        Mark::Brilliancy => "!!"@,
    }
}

impl Mark {
    pub fn to_string(&self) -> (r: String)
        ensures
            r@ == mark_text(*self),
    {
        match self {
            Mark::Blunder => String::from_str("??"),
            Mark::Mistake => String::from_str("?"),
            Mark::Strong => String::from_str("!"),
            Mark::Brilliancy => String::from_str("!!"),
        }
    }
}

/// The move lines of a PTN game from ply `start` on, numbered from
/// `number`: `n. white black`, with an empty black move when the game ends
/// on white's.
pub open spec fn move_lines(plies: Seq<Seq<char>>, start: int, number: nat) -> Seq<char>
    decreases plies.len() - start,
{
    if start < 0 || start >= plies.len() {
        Seq::empty()
    } else {
        let black = if start + 1 < plies.len() {
            plies[start + 1]
        } else {
            Seq::empty()
        };
        let rest = if start + 2 < plies.len() {
            move_lines(plies, start + 2, number + 1)
        } else {
            Seq::empty()
        };
        decimal(number) + ". "@ + plies[start] + " "@ + black + "\n"@ + rest
    }
}

/// A PTN game: the size and komi header, then the numbered moves.
pub open spec fn game_text(size: nat, komi: int, plies: Seq<Seq<char>>) -> Seq<char> {
    "[Size \""@ + decimal(size) + "\"]\n[Komi \""@ + signed_decimal(komi) + "\"]\n"@ + move_lines(
        plies,
        0,
        1,
    )
}

/// Append the move lines of `plies` from ply `start` on, numbered from
/// `number`.
pub fn push_move_lines(out: &mut String, plies: &Vec<String>, start: usize, number: u64)
    requires
        plies@.len() < usize::MAX - 1,
        number < 0x1_0000_0000,
    ensures
        final(out)@ == old(out)@ + move_lines(plies.deep_view(), start as int, number as nat),
{
    let ghost head = out@;
    let ghost all = plies.deep_view();
    if start >= plies.len() {
        assert(out@ =~= head + move_lines(all, start as int, number as nat));
        return;
    }
    let mut i: usize = start;
    let mut k: u64 = number;
    while i < plies.len()
        invariant
            start <= i <= plies.len() + 1,
            plies@.len() < usize::MAX - 1,
            number < 0x1_0000_0000,
            (i - start) % 2 == 0,
            k == number + (i - start) / 2,
            all == plies.deep_view(),
            out@ + move_lines(all, i as int, k as nat) == head + move_lines(
                all,
                start as int,
                number as nat,
            ),
        decreases plies.len() + 1 - i,
    {
        let ghost before = out@;
        push_decimal(out, k);
        out.append(". ");
        out.append(plies[i].as_str());
        out.append(" ");
        if i + 1 < plies.len() {
            out.append(plies[i + 1].as_str());
        }
        out.append("\n");
        proof {
            reveal_strlit("");
            assert(all[i as int] == plies[i as int]@);
            if i + 1 < plies.len() {
                assert(all[i + 1] == plies[i + 1]@);
            }
            let black = if i + 1 < plies.len() { all[i + 1] } else { Seq::<char>::empty() };
            assert(out@ =~= before + (decimal(k as nat) + ". "@ + all[i as int] + " "@ + black
                + "\n"@));
        }
        i = i + 2;
        k = k + 1;
    }
    proof {
        assert(move_lines(all, i as int, k as nat) =~= Seq::<char>::empty());
        assert(out@ + Seq::<char>::empty() =~= out@);
    }
}

/// Write a finished game as PTN: the header with the board size and the
/// komi, and a line per move number with white's and black's moves.
pub fn write_game(size: u8, komi: i32, plies: &Vec<String>) -> (r: String)
    requires
        plies@.len() < usize::MAX - 1,
    ensures
        r@ == game_text(size as nat, komi as int, plies.deep_view()),
{
    let mut out = String::from_str("[Size \"");
    push_decimal(&mut out, size as u64);
    out.append("\"]\n[Komi \"");
    push_signed_decimal(&mut out, komi as i64);
    out.append("\"]\n");
    push_move_lines(&mut out, plies, 0, 1);
    out
}

/// Visits that a move of a branch's continuation needs to be shown.
pub const BRANCH_MIN_VISITS: u32 = 10_000;

/// The moves of a continuation that were visited more than
/// `BRANCH_MIN_VISITS` times, in order.
pub open spec fn shown_moves(continuation: Seq<(Seq<char>, u32)>) -> Seq<Seq<char>>
    decreases continuation.len(),
{
    if continuation.len() == 0 {
        Seq::empty()
    } else if continuation.last().1 > BRANCH_MIN_VISITS {
        shown_moves(continuation.drop_last()).push(continuation.last().0)
    } else {
        shown_moves(continuation.drop_last())
    }
}

/// A branch of the analysis as PTN: a `{ply_move}` title line, then the
/// candidate move with its comment (after `--` when black plays it), then
/// the continuation as numbered move lines.
pub open spec fn branch_text(
    ply: nat,
    mov: Seq<char>,
    comment_white: Seq<char>,
    comment_black: Seq<char>,
    moves: Seq<Seq<char>>,
) -> Seq<char> {
    let number = ply / 2 + 1;
    let title = "{"@ + decimal(ply) + "_"@ + mov + "}\n"@;
    if ply % 2 == 0 {
        let next = if moves.len() > 0 {
            moves[0]
        } else {
            ""@
        };
        title + decimal(number) + ". "@ + mov + " "@ + comment_white + " "@ + next + "\n"@
            + move_lines(moves, 1, number + 1)
    } else {
        title + decimal(number) + ". -- "@ + mov + " "@ + comment_black + "\n"@ + move_lines(
            moves,
            0,
            number + 1,
        )
    }
}

/// Write a branch of the analysis: the candidate move `mov` at `ply`, the
/// comment on it for a white move and for a black move, and the
/// continuation with the visits of each move.
pub fn format_branch(
    ply: u16,
    mov: &str,
    comment_white: &str,
    comment_black: &str,
    continuation: &Vec<(String, u32)>,
) -> (r: String)
    requires
        continuation@.len() < usize::MAX - 1,
    ensures
        r@ == branch_text(
            ply as nat,
            mov@,
            comment_white@,
            comment_black@,
            shown_moves(continuation.deep_view()),
        ),
{
    let ghost all = continuation.deep_view();
    let mut moves: Vec<String> = Vec::new();
    let mut i: usize = 0;
    while i < continuation.len()
        invariant
            i <= continuation@.len(),
            all == continuation.deep_view(),
            moves.deep_view() == shown_moves(all.take(i as int)),
            moves@.len() <= i,
        decreases continuation@.len() - i,
    {
        proof {
            assert(all.take(i + 1).drop_last() =~= all.take(i as int));
        }
        if continuation[i].1 > BRANCH_MIN_VISITS {
            moves.push(continuation[i].0.clone());
            assert(moves.deep_view() =~= shown_moves(all.take(i as int)).push(all[i as int].0));
        }
        i = i + 1;
    }
    assert(all.take(continuation@.len() as int) =~= all);
    let number: u64 = ply as u64 / 2 + 1;
    let mut out = String::from_str("{");
    push_decimal(&mut out, ply as u64);
    out.append("_");
    out.append(mov);
    out.append("}\n");
    push_decimal(&mut out, number);
    if ply % 2 == 0 {
        out.append(". ");
        out.append(mov);
        out.append(" ");
        out.append(comment_white);
        out.append(" ");
        if moves.len() > 0 {
            out.append(moves[0].as_str());
        }
        out.append("\n");
        push_move_lines(&mut out, &moves, 1, number + 1);
    } else {
        out.append(". -- ");
        out.append(mov);
        out.append(" ");
        out.append(comment_black);
        out.append("\n");
        push_move_lines(&mut out, &moves, 0, number + 1);
    }
    proof {
        reveal_strlit("");
        assert(out@ =~= branch_text(
            ply as nat,
            mov@,
            comment_white@,
            comment_black@,
            moves.deep_view(),
        ));
    }
    out
}

/// The ply of the `k`-th move of an analysis starting at `start`. When the
/// analysis starts with black's move, the white move after it is counted at
/// the same ply as that black move.
pub open spec fn ply_of(start: nat, k: nat) -> nat {
    if start % 2 == 1 && k > 0 {
        (start + k - 1) as nat
    } else {
        start + k
    }
}

/// The mark after a move at ply `p`: the next mark (from `marks[mi]`) when
/// it is for that ply; and where the marks go on from.
pub open spec fn mark_step(marks: Seq<(u16, Mark)>, mi: nat, p: nat) -> (Seq<char>, nat) {
    if mi < marks.len() && marks[mi as int].0 == p {
        (mark_text(marks[mi as int].1), mi + 1)
    } else {
        (Seq::empty(), mi)
    }
}

/// The note after a move with `comment`: the next evaluation (from
/// `evals[ei]`, if any is left) and the comment, each in the version for the
/// side that played; and where the evaluations go on from.
pub open spec fn note_step(
    comment: Option<(Seq<char>, Seq<char>)>,
    evals: Seq<(Seq<char>, Seq<char>)>,
    ei: nat,
    white: bool,
) -> (Seq<char>, nat) {
    match comment {
        None => (Seq::empty(), ei),
        Some((as_white, as_black)) => {
            let text = if white {
                as_white
            } else {
                as_black
            };
            if ei < evals.len() {
                (
                    (if white {
                        evals[ei as int].0
                    } else {
                        evals[ei as int].1
                    }) + text,
                    ei + 1,
                )
            } else {
                (text, ei)
            }
        },
    }
}

/// The text of the `k`-th move of an analysis starting at ply `start`, and
/// where marks and evaluations go on from.
/// A move is white's when `start + k` is even. A white move starts a
/// numbered line and is followed by a space; a black move ends the line, and
/// so does a last white move. A first move by black gets `n. --` before it
/// and no line end.
pub open spec fn move_piece(
    start: nat,
    moves: Seq<Seq<char>>,
    comments: Seq<Option<(Seq<char>, Seq<char>)>>,
    evals: Seq<(Seq<char>, Seq<char>)>,
    marks: Seq<(u16, Mark)>,
    k: nat,
    mi: nat,
    ei: nat,
) -> (Seq<char>, nat, nat) {
    let p = ply_of(start, k);
    let white = (start + k) % 2 == 0;
    let (mark, mi2) = mark_step(marks, mi, p);
    let comment = if k < comments.len() {
        comments[k as int]
    } else {
        None
    };
    let (note, ei2) = note_step(comment, evals, ei, white);
    let first_black = start % 2 == 1 && k == 0;
    let piece = move_prefix(first_black, white, p) + moves[k as int] + mark + note + move_suffix(
        first_black,
        white,
        k + 1 == moves.len(),
    );
    (piece, mi2, ei2)
}

/// What comes before a move: its number, with `--` for a first move by
/// black; nothing before a black move otherwise.
pub open spec fn move_prefix(first_black: bool, white: bool, p: nat) -> Seq<char> {
    if first_black {
        decimal(p / 2 + 1) + ". --"@
    } else if white {
        decimal(p / 2 + 1) + ". "@
    } else {
        Seq::empty()
    }
}

/// What comes after a move: a space after a white move, a line end after a
/// black move or a last move.
pub open spec fn move_suffix(first_black: bool, white: bool, last: bool) -> Seq<char> {
    if first_black {
        Seq::empty()
    } else if white {
        " "@ + if last {
            "\n"@
        } else {
            ""@
        }
    } else {
        "\n"@
    }
}

/// The annotated moves of an analysis from the `k`-th move on, with marks
/// from `marks[mi]` and evaluations from `evals[ei]` on.
pub open spec fn moves_text(
    start: nat,
    moves: Seq<Seq<char>>,
    comments: Seq<Option<(Seq<char>, Seq<char>)>>,
    evals: Seq<(Seq<char>, Seq<char>)>,
    marks: Seq<(u16, Mark)>,
    k: nat,
    mi: nat,
    ei: nat,
) -> Seq<char>
    decreases moves.len() - k,
{
    if k >= moves.len() {
        Seq::empty()
    } else {
        let (piece, mi2, ei2) = move_piece(start, moves, comments, evals, marks, k, mi, ei);
        piece + moves_text(start, moves, comments, evals, marks, k + 1, mi2, ei2)
    }
}

/// Each branch after an empty line.
pub open spec fn branches_text(branches: Seq<Seq<char>>) -> Seq<char>
    decreases branches.len(),
{
    if branches.len() == 0 {
        Seq::empty()
    } else {
        branches_text(branches.drop_last()) + "\n"@ + branches.last()
    }
}

/// The PTN text of an analysis: the settings, the annotated moves (the
/// first evaluation is left out: each move gets the evaluation after it), and
/// the branches. An analysis that starts with black to move and has no move
/// still gets its `n. --`.
pub open spec fn analysis_text(
    settings: Seq<char>,
    start: nat,
    moves: Seq<Seq<char>>,
    comments: Seq<Option<(Seq<char>, Seq<char>)>>,
    evals: Seq<(Seq<char>, Seq<char>)>,
    marks: Seq<(u16, Mark)>,
    branches: Seq<Seq<char>>,
) -> Seq<char> {
    settings + (if start % 2 == 1 && moves.len() == 0 {
        move_prefix(true, false, start)
    } else {
        Seq::empty()
    }) + moves_text(start, moves, comments, evals, marks, 0, 0, 1) + branches_text(branches)
}

fn push_mark(out: &mut String, marks: &Vec<(u16, Mark)>, mi: usize, ply: u64) -> (r: usize)
    requires
        mi <= marks@.len(),
    ensures
        final(out)@ == old(out)@ + mark_step(marks@, mi as nat, ply as nat).0,
        r == mark_step(marks@, mi as nat, ply as nat).1,
        r <= marks@.len(),
{
    if mi < marks.len() && marks[mi].0 as u64 == ply {
        let text = marks[mi].1.to_string();
        out.append(text.as_str());
        mi + 1
    } else {
        assert(old(out)@ + Seq::<char>::empty() =~= old(out)@);
        mi
    }
}

fn push_note(
    out: &mut String,
    comment: &Option<(String, String)>,
    evals: &Vec<(String, String)>,
    ei: usize,
    white: bool,
) -> (r: usize)
    requires
        ei <= evals@.len() + 1,
    ensures
        final(out)@ == old(out)@ + note_step(comment.deep_view(), evals.deep_view(), ei as nat, white).0,
        r == note_step(comment.deep_view(), evals.deep_view(), ei as nat, white).1,
        r <= evals@.len() + 1,
{
    match comment {
        Some((as_white, as_black)) => {
            let mut next = ei;
            if ei < evals.len() {
                assert(evals.deep_view()[ei as int] == evals[ei as int].deep_view());
                if white {
                    out.append(evals[ei].0.as_str());
                } else {
                    out.append(evals[ei].1.as_str());
                }
                next = ei + 1;
            }
            if white {
                out.append(as_white.as_str());
            } else {
                out.append(as_black.as_str());
            }
            proof {
                let text = if white { as_white@ } else { as_black@ };
                if ei < evals.len() {
                    let e = if white { evals[ei as int].0@ } else { evals[ei as int].1@ };
                    assert(out@ =~= old(out)@ + (e + text));
                }
            }
            next
        },
        None => {
            assert(old(out)@ + Seq::<char>::empty() =~= old(out)@);
            ei
        },
    }
}

fn push_prefix(out: &mut String, first_black: bool, white: bool, ply: u64)
    requires
        ply < u64::MAX,
    ensures
        final(out)@ == old(out)@ + move_prefix(first_black, white, ply as nat),
{
    if first_black {
        push_decimal(out, ply / 2 + 1);
        out.append(". --");
    } else if white {
        push_decimal(out, ply / 2 + 1);
        out.append(". ");
    } else {
        assert(old(out)@ + Seq::<char>::empty() =~= old(out)@);
    }
}

fn push_suffix(out: &mut String, first_black: bool, white: bool, last: bool)
    ensures
        final(out)@ == old(out)@ + move_suffix(first_black, white, last),
{
    if first_black {
        assert(old(out)@ + Seq::<char>::empty() =~= old(out)@);
    } else if white {
        out.append(" ");
        if last {
            out.append("\n");
        } else {
            proof {
                reveal_strlit("");
            }
        }
        assert(out@ =~= old(out)@ + move_suffix(first_black, white, last));
    } else {
        out.append("\n");
    }
}

fn push_move(
    out: &mut String,
    start_ply: u16,
    moves: &Vec<String>,
    comments: &Vec<Option<(String, String)>>,
    evals: &Vec<(String, String)>,
    marks: &Vec<(u16, Mark)>,
    k: usize,
    mi: usize,
    ei: usize,
) -> (r: (usize, usize))
    requires
        k < moves@.len(),
        start_ply as int + k as int <= u16::MAX,
        mi <= marks@.len(),
        ei <= evals@.len() + 1,
    ensures
        ({
            let (piece, mi2, ei2) = move_piece(
                start_ply as nat,
                moves.deep_view(),
                comments.deep_view(),
                evals.deep_view(),
                marks@,
                k as nat,
                mi as nat,
                ei as nat,
            );
            &&& final(out)@ == old(out)@ + piece
            &&& r.0 == mi2
            &&& r.1 == ei2
            &&& r.0 <= marks@.len()
            &&& r.1 <= evals@.len() + 1
        }),
{
    let ply: u64 = if start_ply % 2 == 1 && k > 0 {
        start_ply as u64 + k as u64 - 1
    } else {
        start_ply as u64 + k as u64
    };
    let white = (start_ply as u64 + k as u64) % 2 == 0;
    let first_black = start_ply % 2 == 1 && k == 0;
    let ghost start_text = out@;
    push_prefix(out, first_black, white, ply);
    let ghost prefix = out@;
    out.append(moves[k].as_str());
    let ghost moved = out@;
    let mi2 = push_mark(out, marks, mi, ply);
    let ghost marked = out@;
    let no_comment: Option<(String, String)> = None;
    let comment = if k < comments.len() {
        &comments[k]
    } else {
        &no_comment
    };
    let ei2 = push_note(out, comment, evals, ei, white);
    let ghost noted = out@;
    push_suffix(out, first_black, white, k + 1 == moves.len());
    proof {
        assert(moves.deep_view()[k as int] == moves[k as int]@);
        if k < comments@.len() {
            assert(comments.deep_view()[k as int] == comments[k as int].deep_view());
        }
        let c = if k < comments@.len() {
            comments.deep_view()[k as int]
        } else {
            None
        };
        assert(c == comment.deep_view());
        assert(ply_of(start_ply as nat, k as nat) == ply);
    }
    (mi2, ei2)
}

/// Whether the plies that writing `n` moves from ply `start` counts up to
/// all fit in a `u16`: after a last white move the count goes up twice.
pub open spec fn plies_fit(start: nat, n: nat) -> bool {
    if start % 2 == 1 && n > 0 {
        start + (n - 1) + (n - 1) % 2 <= u16::MAX
    } else {
        start + n + n % 2 <= u16::MAX
    }
}

/// Write an analysis as PTN.
/// `comments[k]` is the comment on the `k`-th move, as written after a white
/// move and after a black move; `evals` are the evaluations, as written after
/// a white move and after a black move; `marks` are the marked plies in order;
/// `branches` are the branches, already written.
pub fn write_analysis(
    settings: &str,
    start_ply: u16,
    moves: &Vec<String>,
    comments: &Vec<Option<(String, String)>>,
    evals: &Vec<(String, String)>,
    marks: &Vec<(u16, Mark)>,
    branches: &Vec<String>,
) -> (r: String)
    requires
        plies_fit(start_ply as nat, moves@.len()),
    ensures
        r@ == analysis_text(
            settings@,
            start_ply as nat,
            moves.deep_view(),
            comments.deep_view(),
            evals.deep_view(),
            marks@,
            branches.deep_view(),
        ),
{
    let ghost mv = moves.deep_view();
    let ghost cm = comments.deep_view();
    let ghost ev = evals.deep_view();
    let ghost start = start_ply as nat;
    let mut out = String::from_str(settings);
    if start_ply % 2 == 1 && moves.len() == 0 {
        push_prefix(&mut out, true, false, start_ply as u64);
    }
    let ghost opening = out@;
    let mut k: usize = 0;
    let mut mi: usize = 0;
    let mut ei: usize = 1;
    while k < moves.len()
        invariant
            k <= moves@.len(),
            mi <= marks@.len(),
            ei <= evals@.len() + 1,
            mv == moves.deep_view(),
            cm == comments.deep_view(),
            ev == evals.deep_view(),
            start == start_ply as nat,
            plies_fit(start, moves@.len()),
            out@ + moves_text(start, mv, cm, ev, marks@, k as nat, mi as nat, ei as nat) == opening
                + moves_text(start, mv, cm, ev, marks@, 0, 0, 1),
        decreases moves@.len() - k,
    {
        let ghost before = out@;
        let (mi2, ei2) = push_move(&mut out, start_ply, moves, comments, evals, marks, k, mi, ei);
        proof {
            let (piece, m2, e2) = move_piece(start, mv, cm, ev, marks@, k as nat, mi as nat, ei as nat);
            assert(moves_text(start, mv, cm, ev, marks@, k as nat, mi as nat, ei as nat) == piece
                + moves_text(start, mv, cm, ev, marks@, (k + 1) as nat, m2, e2));
            assert(out@ + moves_text(start, mv, cm, ev, marks@, (k + 1) as nat, m2, e2) =~= before
                + moves_text(start, mv, cm, ev, marks@, k as nat, mi as nat, ei as nat));
        }
        mi = mi2;
        ei = ei2;
        k = k + 1;
    }
    assert(out@ =~= opening + moves_text(start, mv, cm, ev, marks@, 0, 0, 1));
    let ghost head = out@;
    let ghost bs = branches.deep_view();
    let mut b: usize = 0;
    while b < branches.len()
        invariant
            b <= branches@.len(),
            bs == branches.deep_view(),
            out@ == head + branches_text(bs.take(b as int)),
        decreases branches@.len() - b,
    {
        out.append("\n");
        out.append(branches[b].as_str());
        proof {
            assert(bs.take(b + 1).drop_last() =~= bs.take(b as int));
            assert(bs[b as int] == branches[b as int]@);
            assert(out@ =~= head + branches_text(bs.take(b + 1)));
        }
        b = b + 1;
    }
    assert(bs.take(branches@.len() as int) =~= bs);
    out
}

} // verus!
