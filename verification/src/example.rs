//! The text format of training examples: one example per line,
//! `tps;white_stones;white_caps;black_stones;black_caps;half_komi;result;policy`
//! with the policy written as `move:visits` pairs joined by `,`.
use vstd::prelude::*;

use crate::colour::Colour;
use crate::pit::GameResult;
use crate::notation::{canonical_move, read_tps, takparse_move, tps_reading};
use crate::text::{
    float_text, is_float_text,
    decimal, is_white_space, join_with, lemma_parse_decimal, lemma_parse_signed_decimal,
    lemma_split_join, number_field, parse_integer, parsed_integer, push_decimal,
    push_signed_decimal, read_number, signed_decimal, split_at_char, split_char,
    split_once_at, split_once_char, trim, trim_end, trim_start, trim_text,
};

verus! {

/// A training example as its line holds it: the position (board in TPS,
/// reserves and half-komi), the game result from the point of view of the
/// player to move, as text, and the visits of each move, with moves as text.
#[derive(Clone, Debug, PartialEq, Eq)]
pub struct ExampleRecord {
    pub tps: String,
    pub white_stones: u8,
    pub white_caps: u8,
    pub black_stones: u8,
    pub black_caps: u8,
    pub half_komi: i8,
    pub result: String,
    pub policy: Vec<(String, u32)>,
}

/// A position from self-play and the visits of its moves, waiting for the
/// game's result.
#[derive(Clone, Debug, PartialEq, Eq)]
pub struct IncompleteExample {
    pub tps: String,
    pub white_stones: u8,
    pub white_caps: u8,
    pub black_stones: u8,
    pub black_caps: u8,
    pub half_komi: i8,
    pub policy: Vec<(String, u32)>,
}

impl IncompleteExample {
    /// The example with the game's result (as text) filled in.
    pub fn complete(self, result: String) -> (r: ExampleRecord)
        ensures
            r.model() == (
                self.tps@,
                self.white_stones,
                self.white_caps,
                self.black_stones,
                self.black_caps,
                self.half_komi,
                result@,
                self.policy.deep_view(),
            ),
    {
        ExampleRecord {
            tps: self.tps,
            white_stones: self.white_stones,
            white_caps: self.white_caps,
            black_stones: self.black_stones,
            black_caps: self.black_caps,
            half_komi: self.half_komi,
            result,
            policy: self.policy,
        }
    }
}

/// The plies played at random before self-play starts searching.
pub const OPENING_PLIES: usize = 3;

/// The result written into an example of a finished game where `to_move`
/// is to move: the result for white (1 for a white win, -1 for a black
/// win, 0 for a draw) seen by the player to move, so negated when black is
/// to move, written as the float it is (a negated draw is `-0`).
pub open spec fn result_text(result: GameResult, to_move: Colour) -> Seq<char> {
    let white_to_move = to_move == Colour::White;
    match result {
        GameResult::Winner(Colour::White) => if white_to_move {
            "1"@
        } else {
            "-1"@
        },
        GameResult::Winner(Colour::Black) => if white_to_move {
            "-1"@
        } else {
            "1"@
        },
        _ => if white_to_move {
            "0"@
        } else {
            "-0"@
        },
    }
}

/// The side to move at `ply`: white at even plies.
pub open spec fn side_at(ply: nat) -> Colour {
    if ply % 2 == 0 {
        Colour::White
    } else {
        Colour::Black
    }
}

/// Complete an example of a finished game with the game's result seen by
/// `to_move`, the player to move in the example's position.
pub fn complete_for(example: IncompleteExample, result: GameResult, to_move: Colour) -> (r:
    ExampleRecord)
    requires
        !(result is Ongoing),
    ensures
        r.model() == (
            example.tps@,
            example.white_stones,
            example.white_caps,
            example.black_stones,
            example.black_caps,
            example.half_komi,
            result_text(result, to_move),
            example.policy.deep_view(),
        ),
{
    let white_to_move = matches!(to_move, Colour::White);
    let text = match result {
        GameResult::Winner(Colour::White) => if white_to_move {
            "1"
        } else {
            "-1"
        },
        GameResult::Winner(Colour::Black) => if white_to_move {
            "-1"
        } else {
            "1"
        },
        _ => if white_to_move {
            "0"
        } else {
            "-0"
        },
    };
    example.complete(String::from_str(text))
}

/// Complete the examples of a finished self-play game, the `i`-th taken at
/// ply `opening_plies + i`, with the game's result seen by the player to
/// move there.
pub fn complete_game(examples: Vec<IncompleteExample>, result: GameResult, opening_plies: usize) -> (r:
    Vec<ExampleRecord>)
    requires
        !(result is Ongoing),
        opening_plies + examples@.len() <= usize::MAX,
    ensures
        r@.len() == examples@.len(),
        forall|i: int|
            0 <= i < r@.len() ==> (#[trigger] r@[i]).model() == (
                examples@[i].tps@,
                examples@[i].white_stones,
                examples@[i].white_caps,
                examples@[i].black_stones,
                examples@[i].black_caps,
                examples@[i].half_komi,
                result_text(result, side_at((opening_plies + i) as nat)),
                examples@[i].policy.deep_view(),
            ),
{
    let ghost all = examples@;
    let mut rest = examples;
    let mut out: Vec<ExampleRecord> = Vec::new();
    let mut i: usize = 0;
    while rest.len() > 0
        invariant
            i + rest@.len() == all.len(),
            rest@ == all.skip(i as int),
            out@.len() == i,
            opening_plies + all.len() <= usize::MAX,
            !(result is Ongoing),
            forall|j: int|
                0 <= j < i ==> (#[trigger] out@[j]).model() == (
                    all[j].tps@,
                    all[j].white_stones,
                    all[j].white_caps,
                    all[j].black_stones,
                    all[j].black_caps,
                    all[j].half_komi,
                    result_text(result, side_at((opening_plies + j) as nat)),
                    all[j].policy.deep_view(),
                ),
        decreases rest@.len(),
    {
        let example = rest.remove(0);
        assert(example == all[i as int]);
        let to_move = if (opening_plies + i) % 2 == 0 {
            Colour::White
        } else {
            Colour::Black
        };
        out.push(complete_for(example, result, to_move));
        assert(rest@ =~= all.skip(i + 1));
        i = i + 1;
    }
    out
}

/// How many of the latest examples training keeps.
pub const MAX_EXAMPLES: usize = 100_000;

/// Keep only the latest `max` examples (the last ones), in order.
pub fn keep_latest<T>(examples: &mut Vec<T>, max: usize)
    ensures
        old(examples)@.len() <= max ==> final(examples)@ == old(examples)@,
        old(examples)@.len() > max ==> final(examples)@ == old(examples)@.subrange(
            old(examples)@.len() - max,
            old(examples)@.len() as int,
        ),
{
    let len = examples.len();
    if len > max {
        let latest = examples.split_off(len - max);
        *examples = latest;
    }
}

/// A field of an example line after the TPS.
#[derive(Clone, Copy, Debug, PartialEq, Eq, Structural)]
pub enum ExampleField {
    WhiteStones,
    WhiteCaps,
    BlackStones,
    BlackCaps,
    HalfKomi,
    Result,
    Policy,
}

/// Why an example line was refused.
#[derive(Clone, Copy, Debug, PartialEq, Eq, Structural)]
pub enum ExampleError {
    /// The line does not start with a TPS string that can be read (see
    /// `tps_readable`).
    InvalidTps,
    /// The line ends before this field.
    Missing(ExampleField),
    /// The field is not a number of its type (`u8` reserves, `i8` half-komi,
    /// a float for the result, as `float_text` reads it).
    InvalidNumber(ExampleField),
    /// A policy pair has no `:` between move and visits.
    MissingDelimiter,
    /// The move of a policy pair is not a move.
    InvalidMove,
    /// The visits of a policy pair are not a `u32`.
    InvalidVisits,
}

/// An example line's content: TPS, the four reserve counts, half-komi,
/// result and policy.
pub type ExampleModel = (Seq<char>, u8, u8, u8, u8, i8, Seq<char>, Seq<(Seq<char>, u32)>);

impl ExampleRecord {
    pub open spec fn model(&self) -> ExampleModel {
        (
            self.tps@,
            self.white_stones,
            self.white_caps,
            self.black_stones,
            self.black_caps,
            self.half_komi,
            self.result@,
            self.policy.deep_view(),
        )
    }
}

/// `move:visits`.
pub open spec fn pair_text(pair: (Seq<char>, u32)) -> Seq<char> {
    pair.0 + seq![':'] + decimal(pair.1 as nat)
}

/// The fields of an example line.
pub open spec fn example_fields(m: ExampleModel) -> Seq<Seq<char>> {
    seq![
        m.0,
        decimal(m.1 as nat),
        decimal(m.2 as nat),
        decimal(m.3 as nat),
        decimal(m.4 as nat),
        signed_decimal(m.5 as int),
        m.6,
        join_with(m.7.map_values(|p: (Seq<char>, u32)| pair_text(p)), ','),
    ]
}

/// The line that an example is written as.
pub open spec fn example_text(m: ExampleModel) -> Seq<char> {
    join_with(example_fields(m), ';')
}

/// A policy pair read from its text, with the move in canonical PTN.
pub open spec fn pair_outcome(piece: Seq<char>) -> Result<(Seq<char>, u32), ExampleError> {
    match split_once_at(piece, ':') {
        None => Err(ExampleError::MissingDelimiter),
        Some((mov, visits)) => match takparse_move(mov) {
            None => Err(ExampleError::InvalidMove),
            Some(m) => match parsed_integer(visits, 0, u32::MAX as int) {
                None => Err(ExampleError::InvalidVisits),
                Some(v) => Ok((m, v as u32)),
            },
        },
    }
}

/// Policy pairs read in order; the first refused pair decides the error.
pub open spec fn pairs_outcome(pieces: Seq<Seq<char>>) -> Result<
    Seq<(Seq<char>, u32)>,
    ExampleError,
>
    decreases pieces.len(),
{
    if pieces.len() == 0 {
        Ok(Seq::empty())
    } else {
        match pairs_outcome(pieces.drop_last()) {
            Err(e) => Err(e),
            Ok(pairs) => match pair_outcome(pieces.last()) {
                Err(e) => Err(e),
                Ok(pair) => Ok(pairs.push(pair)),
            },
        }
    }
}

/// A number field of an example line, or why there is none.
pub open spec fn example_number(
    parts: Seq<Seq<char>>,
    index: int,
    field: ExampleField,
    min: int,
    max: int,
) -> Result<int, ExampleError> {
    match number_field(parts, index, min, max) {
        None => Err(ExampleError::Missing(field)),
        Some(None) => Err(ExampleError::InvalidNumber(field)),
        Some(Some(v)) => Ok(v),
    }
}

/// What reading an example line gives: it is trimmed and split at `;`;
/// the TPS and the moves come out in canonical form; fields after the
/// policy are ignored.
pub open spec fn example_outcome(s: Seq<char>) -> Result<ExampleModel, ExampleError> {
    let parts = split_at_char(trim(s), ';');
    match tps_reading(parts[0]) {
        None => Err(ExampleError::InvalidTps),
        Some(tps) => example_fields_outcome(tps, parts),
    }
}

/// The fields of an example line split at `;`, after its TPS `tps`.
pub open spec fn example_fields_outcome(tps: Seq<char>, parts: Seq<Seq<char>>) -> Result<
    ExampleModel,
    ExampleError,
> {
    match example_number(parts, 1, ExampleField::WhiteStones, 0, 255) {
        Err(e) => Err(e),
        Ok(ws) => match example_number(parts, 2, ExampleField::WhiteCaps, 0, 255) {
            Err(e) => Err(e),
            Ok(wc) => match example_number(parts, 3, ExampleField::BlackStones, 0, 255) {
                Err(e) => Err(e),
                Ok(bs) => match example_number(parts, 4, ExampleField::BlackCaps, 0, 255) {
                    Err(e) => Err(e),
                    Ok(bc) => match example_number(parts, 5, ExampleField::HalfKomi, -128, 127) {
                        Err(e) => Err(e),
                        Ok(hk) => if parts.len() <= 6 {
                            Err(ExampleError::Missing(ExampleField::Result))
                        } else if !float_text(parts[6]) {
                            Err(ExampleError::InvalidNumber(ExampleField::Result))
                        } else if parts.len() <= 7 {
                            Err(ExampleError::Missing(ExampleField::Policy))
                        } else {
                            match pairs_outcome(split_at_char(parts[7], ',')) {
                                Err(e) => Err(e),
                                Ok(policy) => Ok(
                                    (
                                        tps,
                                        ws as u8,
                                        wc as u8,
                                        bs as u8,
                                        bc as u8,
                                        hk as i8,
                                        parts[6],
                                        policy,
                                    ),
                                ),
                            }
                        },
                    },
                },
            },
        },
    }
}

proof fn lemma_join_step(pieces: Seq<Seq<char>>, k: int, sep: char)
    requires
        1 <= k < pieces.len(),
    ensures
        join_with(pieces.take(k + 1), sep) == join_with(pieces.take(k), sep) + seq![sep] + pieces[k],
{
    assert(pieces.take(k + 1).drop_last() =~= pieces.take(k));
}

/// Write an example as its line.
pub fn write_example(example: &ExampleRecord) -> (r: String)
    ensures
        r@ == example_text(example.model()),
{
    let ghost m = example.model();
    let ghost fields = example_fields(m);
    let mut out = example.tps.clone();
    assert(fields.take(1) =~= seq![fields[0]]);
    out.push(';');
    push_decimal(&mut out, example.white_stones as u64);
    proof {
        lemma_join_step(fields, 1, ';');
    }
    out.push(';');
    push_decimal(&mut out, example.white_caps as u64);
    proof {
        lemma_join_step(fields, 2, ';');
    }
    out.push(';');
    push_decimal(&mut out, example.black_stones as u64);
    proof {
        lemma_join_step(fields, 3, ';');
    }
    out.push(';');
    push_decimal(&mut out, example.black_caps as u64);
    proof {
        lemma_join_step(fields, 4, ';');
    }
    out.push(';');
    push_signed_decimal(&mut out, example.half_komi as i64);
    proof {
        lemma_join_step(fields, 5, ';');
    }
    out.push(';');
    out.append(example.result.as_str());
    proof {
        lemma_join_step(fields, 6, ';');
        assert(out@ =~= join_with(fields.take(7), ';'));
    }
    out.push(';');
    let ghost head = out@;
    let ghost texts = m.7.map_values(|p: (Seq<char>, u32)| pair_text(p));
    assert(join_with(texts.take(0), ',') =~= Seq::<char>::empty());
    let mut i: usize = 0;
    while i < example.policy.len()
        invariant
            i <= example.policy.len(),
            m == example.model(),
            texts == m.7.map_values(|p: (Seq<char>, u32)| pair_text(p)),
            out@ == head + join_with(texts.take(i as int), ','),
        decreases example.policy.len() - i,
    {
        if i > 0 {
            out.push(',');
        }
        let (mov, visits) = &example.policy[i];
        out.append(mov.as_str());
        out.push(':');
        push_decimal(&mut out, *visits as u64);
        proof {
            assert(texts[i as int] == pair_text(m.7[i as int]));
            if i == 0 {
                assert(texts.take(1) =~= seq![texts[0]]);
            } else {
                lemma_join_step(texts, i as int, ',');
            }
            assert(out@ =~= head + join_with(texts.take(i + 1), ','));
        }
        i = i + 1;
    }
    proof {
        assert(texts.take(example.policy.len() as int) =~= texts);
        lemma_join_step(fields, 7, ';');
        assert(fields.take(8) =~= fields);
    }
    out
}

fn read_example_number(parts: &Vec<String>, index: usize, field: ExampleField, min: i128, max: i128) -> (r:
    Result<i128, ExampleError>)
    requires
        -128 <= min <= 0 <= max <= 255,
    ensures
        r matches Ok(v) ==> example_number(parts.deep_view(), index as int, field, min as int, max as int)
            == Ok::<int, ExampleError>(v as int),
        r matches Err(e) ==> example_number(parts.deep_view(), index as int, field, min as int, max as int)
            == Err::<int, ExampleError>(e),
{
    match read_number(parts, index, min, max) {
        None => Err(ExampleError::Missing(field)),
        Some(None) => Err(ExampleError::InvalidNumber(field)),
        Some(Some(v)) => Ok(v),
    }
}

/// Once a pair is refused, the pairs after it change nothing.
proof fn lemma_pair_error_persists(pieces: Seq<Seq<char>>, k: int)
    requires
        0 <= k <= pieces.len(),
        pairs_outcome(pieces.take(k)) is Err,
    ensures
        pairs_outcome(pieces) == pairs_outcome(pieces.take(k)),
    decreases pieces.len(),
{
    if k < pieces.len() {
        assert(pieces.drop_last().take(k) =~= pieces.take(k));
        lemma_pair_error_persists(pieces.drop_last(), k);
    } else {
        assert(pieces.take(k) =~= pieces);
    }
}

fn read_pairs(text: &str) -> (r: Result<Vec<(String, u32)>, ExampleError>)
    ensures
        r matches Ok(pairs) ==> pairs_outcome(split_at_char(text@, ',')) == Ok::<
            _,
            ExampleError,
        >(pairs.deep_view()),
        r matches Err(e) ==> pairs_outcome(split_at_char(text@, ',')) == Err::<
            Seq<(Seq<char>, u32)>,
            ExampleError,
        >(e),
{
    let pieces = split_char(text, ',');
    let ghost all = pieces.deep_view();
    let mut pairs: Vec<(String, u32)> = Vec::new();
    assert(all.take(0) =~= Seq::<Seq<char>>::empty());
    assert(pairs.deep_view() =~= Seq::<(Seq<char>, u32)>::empty());
    let mut i: usize = 0;
    while i < pieces.len()
        invariant
            i <= pieces.len(),
            all == pieces.deep_view(),
            all == split_at_char(text@, ','),
            pairs_outcome(all.take(i as int)) == Ok::<_, ExampleError>(pairs.deep_view()),
        decreases pieces.len() - i,
    {
        proof {
            assert(all.take(i + 1).drop_last() =~= all.take(i as int));
            assert(all.take(i + 1).last() == pieces[i as int]@);
        }
        match split_once_char(pieces[i].as_str(), ':') {
            None => {
                proof {
                    lemma_pair_error_persists(all, i + 1);
                }
                return Err(ExampleError::MissingDelimiter);
            },
            Some((text, visits)) => {
                let mov = match canonical_move(text.as_str()) {
                    Some(m) => m,
                    None => {
                        proof {
                            lemma_pair_error_persists(all, i + 1);
                        }
                        return Err(ExampleError::InvalidMove);
                    },
                };
                match parse_integer(visits.as_str(), 0, u32::MAX as i128) {
                    None => {
                        proof {
                            lemma_pair_error_persists(all, i + 1);
                        }
                        return Err(ExampleError::InvalidVisits);
                    },
                    Some(v) => {
                        pairs.push((mov, v as u32));
                        assert(pairs.deep_view() =~= pairs_outcome(all.take(i as int))->Ok_0.push(
                            (mov@, v as u32),
                        ));
                    },
                }
            },
        }
        i = i + 1;
    }
    assert(all.take(pieces.len() as int) =~= all);
    Ok(pairs)
}

/// Read an example from its line.
pub fn read_example(s: &str) -> (r: Result<ExampleRecord, ExampleError>)
    ensures
        r matches Ok(example) ==> example_outcome(s@) == Ok::<_, ExampleError>(example.model()),
        r matches Err(e) ==> example_outcome(s@) == Err::<ExampleModel, ExampleError>(e),
{
    let trimmed = trim_text(s);
    let parts = split_char(trimmed.as_str(), ';');
    proof {
        crate::text::lemma_split_at_char_non_empty(trimmed@, ';');
    }
    assert(parts.deep_view()[0] == parts[0]@);
    let tps = match read_tps(parts[0].as_str()) {
        Some(t) => t,
        None => return Err(ExampleError::InvalidTps),
    };
    let white_stones = read_example_number(&parts, 1, ExampleField::WhiteStones, 0, 255)?;
    let white_caps = read_example_number(&parts, 2, ExampleField::WhiteCaps, 0, 255)?;
    let black_stones = read_example_number(&parts, 3, ExampleField::BlackStones, 0, 255)?;
    let black_caps = read_example_number(&parts, 4, ExampleField::BlackCaps, 0, 255)?;
    let half_komi = read_example_number(&parts, 5, ExampleField::HalfKomi, -128, 127)?;
    if parts.len() <= 6 {
        return Err(ExampleError::Missing(ExampleField::Result));
    }
    assert(parts.deep_view()[6] == parts[6]@);
    if !is_float_text(parts[6].as_str()) {
        return Err(ExampleError::InvalidNumber(ExampleField::Result));
    }
    if parts.len() <= 7 {
        return Err(ExampleError::Missing(ExampleField::Policy));
    }
    let policy = read_pairs(parts[7].as_str())?;
    Ok(
        ExampleRecord {
            tps,
            white_stones: white_stones as u8,
            white_caps: white_caps as u8,
            black_stones: black_stones as u8,
            black_caps: black_caps as u8,
            half_komi: half_komi as i8,
            result: parts[6].clone(),
            policy,
        },
    )
}

/// Whether an example survives being written and read back: no `;` in the
/// TPS, a result that reads as a float, a TPS that does not start with white space (reading
/// trims the line), at least one policy pair (an empty policy is written as
/// an empty field, which reads as a pair without `:`), and moves without
/// `;`, `,` or `:`.
pub open spec fn writable(m: ExampleModel) -> bool {
    &&& !m.0.contains(';')
    &&& (m.0.len() == 0 || !is_white_space(m.0[0]))
    &&& !m.6.contains(';')
    &&& float_text(m.6)
    &&& m.7.len() > 0
    &&& forall|i: int|
        0 <= i < m.7.len() ==> {
            let mov = (#[trigger] m.7[i]).0;
            !mov.contains(';') && !mov.contains(',') && !mov.contains(':')
        }
}

/// Whether the TPS and the moves of an example are in the canonical form
/// that reading gives them.
pub open spec fn canonical(m: ExampleModel) -> bool {
    &&& tps_reading(m.0) == Some(m.0)
    &&& forall|i: int| 0 <= i < m.7.len() ==> takparse_move((#[trigger] m.7[i]).0) == Some(m.7[i].0)
}

proof fn lemma_decimal_free_of(n: nat, c: char)
    requires
        !crate::text::is_digit(c),
    ensures
        !decimal(n).contains(c),
        decimal(n).len() > 0,
        crate::text::is_digit(decimal(n).last()),
{
    crate::text::lemma_decimal_digits(n);
    assert forall|i: int| 0 <= i < decimal(n).len() implies decimal(n)[i] != c by {
        assert(crate::text::is_digit(decimal(n)[i]));
    }
}

proof fn lemma_signed_decimal_free_of(n: int, c: char)
    requires
        !crate::text::is_digit(c),
        c != '-',
    ensures
        !signed_decimal(n).contains(c),
{
    if n < 0 {
        lemma_decimal_free_of((-n) as nat, c);
        let t = seq!['-'] + decimal((-n) as nat);
        assert forall|i: int| 0 <= i < t.len() implies t[i] != c by {
            if i > 0 {
                assert(t[i] == decimal((-n) as nat)[i - 1]);
            }
        }
    } else {
        lemma_decimal_free_of(n as nat, c);
    }
}

proof fn lemma_join_free_of(pieces: Seq<Seq<char>>, sep: char, c: char)
    requires
        sep != c,
        forall|i: int| 0 <= i < pieces.len() ==> !(#[trigger] pieces[i]).contains(c),
    ensures
        !join_with(pieces, sep).contains(c),
    decreases pieces.len(),
{
    if pieces.len() >= 2 {
        lemma_join_free_of(pieces.drop_last(), sep, c);
        let a = join_with(pieces.drop_last(), sep);
        let t = a + seq![sep] + pieces.last();
        assert forall|i: int| 0 <= i < t.len() implies t[i] != c by {
            if i < a.len() {
                assert(t[i] == a[i]);
            } else if i > a.len() {
                assert(t[i] == pieces.last()[i - a.len() - 1]);
            }
        }
    } else if pieces.len() == 1 {
        assert(!pieces[0].contains(c));
    }
}

proof fn lemma_join_ends(pieces: Seq<Seq<char>>, sep: char)
    requires
        pieces.len() > 0,
    ensures
        pieces[0].len() > 0 ==> join_with(pieces, sep)[0] == pieces[0][0],
        pieces[0].len() == 0 && pieces.len() >= 2 ==> join_with(pieces, sep)[0] == sep,
        join_with(pieces, sep).len() >= pieces[0].len(),
        pieces.last().len() > 0 ==> join_with(pieces, sep).len() > 0 && join_with(pieces, sep).last()
            == pieces.last().last(),
    decreases pieces.len(),
{
    if pieces.len() >= 2 {
        lemma_join_ends(pieces.drop_last(), sep);
        if pieces.len() == 2 {
            assert(pieces.drop_last()[0] == pieces[0]);
        } else {
            assert(pieces.drop_last()[0] == pieces[0]);
        }
    }
}

proof fn lemma_pairs_read_back(pairs: Seq<(Seq<char>, u32)>)
    requires
        forall|i: int| 0 <= i < pairs.len() ==> !(#[trigger] pairs[i]).0.contains(':'),
        forall|i: int| 0 <= i < pairs.len() ==> takparse_move((#[trigger] pairs[i]).0) == Some(pairs[i].0),
    ensures
        pairs_outcome(pairs.map_values(|p: (Seq<char>, u32)| pair_text(p))) == Ok::<
            _,
            ExampleError,
        >(pairs),
    decreases pairs.len(),
{
    let texts = pairs.map_values(|p: (Seq<char>, u32)| pair_text(p));
    if pairs.len() > 0 {
        let rest = pairs.drop_last();
        lemma_pairs_read_back(rest);
        assert(texts.drop_last() =~= rest.map_values(|p: (Seq<char>, u32)| pair_text(p)));
        let p = pairs.last();
        assert(takparse_move(pairs[pairs.len() - 1].0) == Some(p.0));
        let t = pair_text(p);
        assert(t[p.0.len() as int] == ':');
        assert forall|j: int| 0 <= j < p.0.len() implies t[j] != ':' by {
            assert(t[j] == p.0[j]);
        }
        crate::text::lemma_split_once_first(t, ':', p.0.len() as int);
        assert(t.take(p.0.len() as int) =~= p.0);
        assert(t.skip(p.0.len() as int + 1) =~= decimal(p.1 as nat));
        lemma_parse_decimal(p.1 as nat, u32::MAX as int);
        assert(texts.last() == t);
        assert(pair_outcome(t) == Ok::<_, ExampleError>(p));
        assert(pairs_outcome(texts.drop_last()) == Ok::<_, ExampleError>(rest));
        assert(rest.push(p) =~= pairs);
        assert(pairs_outcome(texts) == Ok::<_, ExampleError>(rest.push(p)));
    } else {
        assert(texts =~= Seq::<Seq<char>>::empty());
        assert(pairs =~= Seq::<(Seq<char>, u32)>::empty());
    }
}

/// Reading a written example gives back the example: the line's content
/// is kept exactly, for every example that `writable` admits whose TPS and
/// moves are in canonical form.
pub proof fn law_read_gives_back_written(m: ExampleModel)
    requires
        writable(m),
        canonical(m),
    ensures
        example_outcome(example_text(m)) == Ok::<_, ExampleError>(m),
{
    let fields = example_fields(m);
    let texts = m.7.map_values(|p: (Seq<char>, u32)| pair_text(p));
    let text = example_text(m);

    // No field holds `;`, and no pair holds `,`.
    assert forall|i: int| 0 <= i < texts.len() implies !(#[trigger] texts[i]).contains(',') && !texts[i].contains(';') by {
        let p = m.7[i];
        lemma_decimal_free_of(p.1 as nat, ',');
        lemma_decimal_free_of(p.1 as nat, ';');
        let t = pair_text(p);
        assert(texts[i] == t);
        assert forall|j: int| 0 <= j < t.len() implies t[j] != ',' && t[j] != ';' by {
            if j < p.0.len() {
                assert(t[j] == p.0[j]);
            } else if j > p.0.len() {
                assert(t[j] == decimal(p.1 as nat)[j - p.0.len() - 1]);
            }
        }
    }
    lemma_join_free_of(texts, ',', ';');
    lemma_decimal_free_of(m.1 as nat, ';');
    lemma_decimal_free_of(m.2 as nat, ';');
    lemma_decimal_free_of(m.3 as nat, ';');
    lemma_decimal_free_of(m.4 as nat, ';');
    lemma_signed_decimal_free_of(m.5 as int, ';');
    assert forall|i: int| 0 <= i < fields.len() implies !(#[trigger] fields[i]).contains(';') by {}
    lemma_split_join(fields, ';');

    // Trimming leaves the line alone.
    let last = m.7.last();
    lemma_decimal_free_of(last.1 as nat, ';');
    lemma_join_ends(texts, ',');
    assert(texts.last() == pair_text(last));
    assert(pair_text(last).last() == decimal(last.1 as nat).last());
    lemma_join_ends(fields, ';');
    assert(!is_white_space(text[0]));
    assert(!is_white_space(text.last()));
    assert(trim_start(text) == text);
    assert(trim_end(text) == text);

    // The numbers and the pairs read back.
    lemma_parse_decimal(m.1 as nat, 255);
    lemma_parse_decimal(m.2 as nat, 255);
    lemma_parse_decimal(m.3 as nat, 255);
    lemma_parse_decimal(m.4 as nat, 255);
    lemma_parse_signed_decimal(m.5 as int, -128, 127);
    lemma_split_join(texts, ',');
    lemma_pairs_read_back(m.7);
}

} // verus!
