//! A verified parser for PGN (Portable Game Notation) chess game records.
//!
//! A PGN document is one or more concatenated games, each a block of
//! bracketed tag-pair lines followed by a movetext section of numbered moves,
//! optional comments, and a terminating result token. The parser turns such
//! text into structured games whose text fields borrow from the input buffer,
//! or fails with a structural error naming the grammar rule and the position
//! that did not match. Moves are kept as opaque notation text: nothing here
//! validates them against the rules of chess.
//!
//! The grammar is stated twice: once as specification functions over byte
//! sequences (`spec_header`, `spec_movetext`, `spec_game`, `spec_games`),
//! and once as executable code proved to return exactly what those functions
//! describe.

use vstd::prelude::*;

pub mod error;
pub mod header;
pub mod movetext;
pub mod scan;

pub use error::{ErrSpec, PgnError, PgnErrorKind};
pub use header::{HeaderSpec, PgnGameHeader, PgnGameResult};
pub use movetext::{Move, MoveSpec};

use header::{header_at, spec_header};
use movetext::{movetext_at, moves_view, spec_movetext};
use vstd::slice::slice_subrange;

verus! {

// ---------------------------------------------------------------------------
// The model
// ---------------------------------------------------------------------------

/// The mathematical form of one parsed game.
pub ghost struct GameSpec {
    pub header: HeaderSpec,
    pub moves: Seq<MoveSpec>,
}

/// Parses one game at `i`: a header block, then the movetext continuing at
/// the position the header left off. Either sub-parse's failure is the
/// game's failure, unchanged.
pub open spec fn spec_game(s: Seq<u8>, i: int) -> Result<(GameSpec, int), ErrSpec> {
    match spec_header(s, i) {
        Err(e) => Err(e),
        Ok((h, p)) => match spec_movetext(s, p) {
            Err(e) => Err(e),
            Ok((ms, e)) => Ok((GameSpec { header: h, moves: ms }, e)),
        },
    }
}

/// Parses games at `i` until one fails to match, returning them in input
/// order together with the position after the last complete game.
pub open spec fn spec_games_rest(s: Seq<u8>, i: int) -> (Seq<GameSpec>, int)
    decreases s.len() - i,
{
    match spec_game(s, i) {
        Err(_) => (Seq::empty(), i),
        Ok((g, j)) => if i < j <= s.len() {
            let (gs, e) = spec_games_rest(s, j);
            (seq![g] + gs, e)
        } else {
            // unreachable: a parsed game always advances within bounds
            (seq![g], j)
        },
    }
}

/// Parses a multi-game document at `i`: one or more games. When not even one
/// game matches, the parse fails with a game-count error at the position the
/// first game's parse failed.
pub open spec fn spec_games(s: Seq<u8>, i: int) -> Result<(Seq<GameSpec>, int), ErrSpec> {
    match spec_game(s, i) {
        Err(e) => Err(ErrSpec { kind: PgnErrorKind::GameCount, pos: e.pos }),
        Ok(_) => Ok(spec_games_rest(s, i)),
    }
}

// ---------------------------------------------------------------------------
// Laws of the composition
// ---------------------------------------------------------------------------

/// A parsed game consumes at least one byte and stays within the input.
pub proof fn lemma_game_bounds(s: Seq<u8>, i: int)
    requires
        0 <= i <= s.len(),
        spec_game(s, i) is Ok,
    ensures
        i < spec_game(s, i)->Ok_0.1 <= s.len(),
{
    header::lemma_header_bounds(s, i);
    let p = spec_header(s, i)->Ok_0.1;
    movetext::lemma_movetext_bounds(s, p);
}

/// A successful single-game parse consumes exactly the game's text: the
/// consumed prefix and the remainder the parser hands back together are the
/// whole input, so the remainder is whatever text followed the game.
pub proof fn lemma_game_splits_input(s: Seq<u8>, g: GameSpec, n: int)
    requires
        spec_game(s, 0) == Ok::<(GameSpec, int), ErrSpec>((g, n)),
    ensures
        0 <= n <= s.len(),
        s == s.subrange(0, n) + s.subrange(n, s.len() as int),
{
    lemma_game_bounds(s, 0);
    assert(s =~= s.subrange(0, n) + s.subrange(n, s.len() as int));
}

/// Two concatenated well-formed games parse as exactly two games: when a
/// game parses at the start, a second parses where the first ended, and no
/// further game follows, the multi-game parse returns precisely those two
/// games, in order, ending where the second did. The first game's plies are
/// those parsed before the second game's header begins.
pub proof fn lemma_two_game_document(s: Seq<u8>, g1: GameSpec, n1: int, g2: GameSpec, n2: int)
    requires
        spec_game(s, 0) == Ok::<(GameSpec, int), ErrSpec>((g1, n1)),
        spec_game(s, n1) == Ok::<(GameSpec, int), ErrSpec>((g2, n2)),
        spec_game(s, n2) is Err,
    ensures
        spec_games(s, 0) == Ok::<(Seq<GameSpec>, int), ErrSpec>((seq![g1, g2], n2)),
{
    lemma_game_bounds(s, 0);
    lemma_game_bounds(s, n1);
    assert(spec_games_rest(s, n2) == (Seq::<GameSpec>::empty(), n2));
    assert(spec_games_rest(s, n1).0 == seq![g2] + spec_games_rest(s, n2).0);
    assert(spec_games_rest(s, n1).0 =~= seq![g2]);
    assert(spec_games_rest(s, n1).1 == n2);
    assert(spec_games_rest(s, 0).0 == seq![g1] + spec_games_rest(s, n1).0);
    assert(spec_games_rest(s, 0).0 =~= seq![g1, g2]);
    assert(spec_games_rest(s, 0).1 == n2);
    assert(spec_games_rest(s, 0) == (seq![g1, g2], n2));
}

// ---------------------------------------------------------------------------
// The executable data
// ---------------------------------------------------------------------------

/// One parsed game: its header and its plies in input order. All text
/// borrows from the buffer the game was parsed from.
#[derive(Debug, Clone)]
pub struct PgnGame<'s> {
    pub header: PgnGameHeader<'s>,
    pub moves: Vec<Move<'s>>,
}

impl<'s> View for PgnGame<'s> {
    type V = GameSpec;

    open spec fn view(&self) -> GameSpec {
        GameSpec { header: self.header@, moves: moves_view(self.moves@) }
    }
}

/// The contents a list of games holds.
pub open spec fn games_view<'a>(gs: Seq<PgnGame<'a>>) -> Seq<GameSpec> {
    gs.map_values(|g: PgnGame<'a>| g@)
}

// ---------------------------------------------------------------------------
// Executable parsing
// ---------------------------------------------------------------------------

/// Parses one game at position `i` of `s`, exactly as `spec_game` describes.
pub(crate) fn game_at<'s>(s: &'s [u8], i: usize) -> (r: Result<(PgnGame<'s>, usize), PgnError>)
    requires
        i <= s@.len(),
    ensures
        (match spec_game(s@, i as int) {
            Ok((g, n)) => r matches Ok((gm, end)) && gm@ == g && end as int == n && i < end
                <= s@.len(),
            Err(e) => r matches Err(pe) && pe.kind == e.kind && pe.pos as int == e.pos,
        }),
{
    let (hdr, p) = match header_at(s, i) {
        Ok(x) => x,
        Err(e) => {
            return Err(e);
        },
    };
    let (moves, end) = match movetext_at(s, p) {
        Ok(x) => x,
        Err(e) => {
            return Err(e);
        },
    };
    Ok((PgnGame { header: hdr, moves }, end))
}

impl<'s> PgnGame<'s> {
    /// Parses the single game at the start of `s`, returning the unconsumed
    /// remainder of the input alongside the game.
    pub fn parse_game(s: &'s [u8]) -> (r: Result<(&'s [u8], PgnGame<'s>), PgnError>)
        ensures
            (match spec_game(s@, 0) {
                Ok((g, n)) => r matches Ok((rest, gm)) && gm@ == g && rest@ == s@.subrange(
                    n,
                    s@.len() as int,
                ),
                Err(e) => r matches Err(pe) && pe.kind == e.kind && pe.pos as int == e.pos,
            }),
    {
        match game_at(s, 0) {
            Ok((gm, end)) => Ok((slice_subrange(s, end, s.len()), gm)),
            Err(e) => Err(e),
        }
    }

    /// Parses one or more concatenated games at the start of `s`, returning
    /// the unconsumed remainder of the input alongside the games in input
    /// order.
    pub fn parse_games(s: &'s [u8]) -> (r: Result<(&'s [u8], Vec<PgnGame<'s>>), PgnError>)
        ensures
            (match spec_games(s@, 0) {
                Ok((gs, n)) => r matches Ok((rest, v)) && games_view(v@) == gs && rest@
                    == s@.subrange(n, s@.len() as int),
                Err(e) => r matches Err(pe) && pe.kind == e.kind && pe.pos as int == e.pos,
            }),
    {
        let (g0, end0) = match game_at(s, 0) {
            Ok(x) => x,
            Err(e) => {
                return Err(PgnError { kind: PgnErrorKind::GameCount, pos: e.pos });
            },
        };
        let mut games: Vec<PgnGame<'s>> = Vec::new();
        proof {
            assert(games_view(games@.push(g0)) =~= seq![g0@]);
        }
        games.push(g0);
        let mut p: usize = end0;
        loop
            invariant
                p <= s@.len(),
                spec_games(s@, 0) == Ok::<(Seq<GameSpec>, int), ErrSpec>(spec_games_rest(s@, 0)),
                spec_games_rest(s@, 0).0 == games_view(games@) + spec_games_rest(s@, p as int).0,
                spec_games_rest(s@, 0).1 == spec_games_rest(s@, p as int).1,
            decreases s@.len() - p,
        {
            match game_at(s, p) {
                Err(_) => {
                    proof {
                        assert(spec_games_rest(s@, p as int).0 =~= Seq::<GameSpec>::empty());
                        assert(games_view(games@) + spec_games_rest(s@, p as int).0 =~= games_view(
                            games@,
                        ));
                    }
                    return Ok((slice_subrange(s, p, s.len()), games));
                },
                Ok((g, end)) => {
                    proof {
                        let old_view = games_view(games@);
                        assert(games_view(games@.push(g)) =~= old_view + seq![g@]);
                        assert(old_view + (seq![g@] + spec_games_rest(s@, end as int).0) =~= (
                        old_view + seq![g@]) + spec_games_rest(s@, end as int).0);
                    }
                    games.push(g);
                    p = end;
                },
            }
        }
    }
}

} // verus!
