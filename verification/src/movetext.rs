//! The movetext section of a game: a sequence of move tokens, each optionally
//! preceded by a discarded move-number label and optionally followed by one
//! comment, ended by a result token or by lookahead onto the next game's
//! header.

use vstd::prelude::*;

use crate::error::{ErrSpec, PgnError, PgnErrorKind};
use crate::header::{build_result_lit, lit_black_win, lit_draw, lit_other, lit_white_win};
use crate::scan::{byte_at, check_byte_at, check_lit_at, lit_at, scan, scan_class, ByteClass};
use vstd::slice::slice_subrange;

verus! {

// ---------------------------------------------------------------------------
// The model
// ---------------------------------------------------------------------------

/// The mathematical form of one parsed ply: the notation text and the
/// comment attached to it, if one immediately follows it.
pub ghost struct MoveSpec {
    pub san: Seq<u8>,
    pub comment: Option<Seq<u8>>,
}

/// Parses a move-number label at `i`: one or more digits, zero or more `.`
/// characters, then any whitespace. Returns the position after the label, or
/// `None` when no digit stands at `i`.
pub open spec fn spec_move_num(s: Seq<u8>, i: int) -> Option<int> {
    let d = scan(s, i, ByteClass::Digit);
    if d == i {
        None
    } else {
        Some(scan(s, scan(s, d, ByteClass::Dot), ByteClass::Ws))
    }
}

/// Parses a comment at `i`: either `{` then one or more bytes without `}`
/// then `}`, or `;` then one or more bytes without a newline then the
/// newline. Returns the comment text and the position past it.
pub open spec fn spec_comment(s: Seq<u8>, i: int) -> Option<(Seq<u8>, int)> {
    if byte_at(s, i, '{' as u8) {
        let j = scan(s, i + 1, ByteClass::BraceComment);
        if j > i + 1 && byte_at(s, j, '}' as u8) {
            Some((s.subrange(i + 1, j), j + 1))
        } else {
            None
        }
    } else if byte_at(s, i, ';' as u8) {
        let j = scan(s, i + 1, ByteClass::LineComment);
        if j > i + 1 && byte_at(s, j, '\n' as u8) {
            Some((s.subrange(i + 1, j), j + 1))
        } else {
            None
        }
    } else {
        None
    }
}

/// Parses one ply at `i`: leading whitespace, an optional move-number label,
/// more whitespace, a nonempty notation token (no space or newline), at
/// least one whitespace byte, and an optional comment.
pub open spec fn spec_move(s: Seq<u8>, i: int) -> Option<(MoveSpec, int)> {
    let a = scan(s, i, ByteClass::Ws);
    let b = (match spec_move_num(s, a) {
        Some(j) => j,
        None => a,
    });
    let c = scan(s, b, ByteClass::Ws);
    let d = scan(s, c, ByteClass::San);
    if d == c {
        None
    } else {
        let e = scan(s, d, ByteClass::Ws);
        if e == d {
            None
        } else {
            match spec_comment(s, e) {
                Some((cm, f)) => Some((MoveSpec { san: s.subrange(c, d), comment: Some(cm) }, f)),
                None => Some((MoveSpec { san: s.subrange(c, d), comment: None }, e)),
            }
        }
    }
}

/// The termination check, tried before each ply: either lookahead onto the
/// next game's header (optional whitespace then `[`, nothing consumed), or a
/// result token (`1-0`, `0-1`, `1/2-1/2`, `*`, tried in that order) with its
/// surrounding whitespace consumed.
pub open spec fn spec_movetext_end(s: Seq<u8>, i: int) -> Option<int> {
    let w = scan(s, i, ByteClass::Ws);
    if byte_at(s, w, '[' as u8) {
        Some(i)
    } else if lit_at(s, w, lit_white_win()) {
        Some(scan(s, w + 3, ByteClass::Ws))
    } else if lit_at(s, w, lit_black_win()) {
        Some(scan(s, w + 3, ByteClass::Ws))
    } else if lit_at(s, w, lit_draw()) {
        Some(scan(s, w + 7, ByteClass::Ws))
    } else if lit_at(s, w, lit_other()) {
        Some(scan(s, w + 1, ByteClass::Ws))
    } else {
        None
    }
}

/// Parses the movetext at `i`: plies accumulate until the termination check
/// succeeds; when neither a termination marker nor a further ply matches,
/// the whole movetext fails with a move-grammar error at that position.
pub open spec fn spec_movetext(s: Seq<u8>, i: int) -> Result<(Seq<MoveSpec>, int), ErrSpec>
    decreases s.len() - i,
{
    match spec_movetext_end(s, i) {
        Some(j) => Ok((Seq::empty(), j)),
        None => match spec_move(s, i) {
            None => Err(ErrSpec { kind: PgnErrorKind::MoveGrammar, pos: i }),
            Some((m, j)) => if i < j <= s.len() {
                match spec_movetext(s, j) {
                    Ok((ms, e)) => Ok((seq![m] + ms, e)),
                    Err(e) => Err(e),
                }
            } else {
                // unreachable: a matched ply always advances within bounds
                Ok((seq![m], j))
            },
        },
    }
}

// ---------------------------------------------------------------------------
// Bounds of the movetext grammar
// ---------------------------------------------------------------------------

/// A parsed comment consumes at least one byte and stays within the input.
pub proof fn lemma_comment_bounds(s: Seq<u8>, i: int)
    requires
        0 <= i <= s.len(),
        spec_comment(s, i) is Some,
    ensures
        i < spec_comment(s, i)->Some_0.1 <= s.len(),
{
}

/// A parsed ply consumes at least one byte and stays within the input.
pub proof fn lemma_move_bounds(s: Seq<u8>, i: int)
    requires
        0 <= i <= s.len(),
        spec_move(s, i) is Some,
    ensures
        i < spec_move(s, i)->Some_0.1 <= s.len(),
{
    crate::scan::lemma_scan(s, i, ByteClass::Ws);
    let a = scan(s, i, ByteClass::Ws);
    crate::scan::lemma_scan(s, a, ByteClass::Digit);
    let d0 = scan(s, a, ByteClass::Digit);
    crate::scan::lemma_scan(s, d0, ByteClass::Dot);
    let d1 = scan(s, d0, ByteClass::Dot);
    crate::scan::lemma_scan(s, d1, ByteClass::Ws);
    let b = (match spec_move_num(s, a) {
        Some(j) => j,
        None => a,
    });
    crate::scan::lemma_scan(s, b, ByteClass::Ws);
    let c = scan(s, b, ByteClass::Ws);
    crate::scan::lemma_scan(s, c, ByteClass::San);
    let d = scan(s, c, ByteClass::San);
    crate::scan::lemma_scan(s, d, ByteClass::Ws);
    let e = scan(s, d, ByteClass::Ws);
    if spec_comment(s, e) is Some {
        lemma_comment_bounds(s, e);
    }
}

/// A successful termination check ends within the input and never before
/// the position it started from.
pub proof fn lemma_movetext_end_bounds(s: Seq<u8>, i: int)
    requires
        0 <= i <= s.len(),
        spec_movetext_end(s, i) is Some,
    ensures
        i <= spec_movetext_end(s, i)->Some_0 <= s.len(),
{
    crate::scan::lemma_scan(s, i, ByteClass::Ws);
    let w = scan(s, i, ByteClass::Ws);
    if !byte_at(s, w, '[' as u8) {
        if lit_at(s, w, lit_white_win()) {
            crate::scan::lemma_scan(s, w + 3, ByteClass::Ws);
        } else if lit_at(s, w, lit_black_win()) {
            crate::scan::lemma_scan(s, w + 3, ByteClass::Ws);
        } else if lit_at(s, w, lit_draw()) {
            crate::scan::lemma_scan(s, w + 7, ByteClass::Ws);
        } else if lit_at(s, w, lit_other()) {
            crate::scan::lemma_scan(s, w + 1, ByteClass::Ws);
        }
    }
}

/// A parsed movetext section stays within the input.
pub proof fn lemma_movetext_bounds(s: Seq<u8>, i: int)
    requires
        0 <= i <= s.len(),
        spec_movetext(s, i) is Ok,
    ensures
        i <= spec_movetext(s, i)->Ok_0.1 <= s.len(),
    decreases s.len() - i,
{
    match spec_movetext_end(s, i) {
        Some(j) => {
            lemma_movetext_end_bounds(s, i);
        },
        None => {
            lemma_move_bounds(s, i);
            let j = spec_move(s, i)->Some_0.1;
            lemma_movetext_bounds(s, j);
        },
    }
}

// ---------------------------------------------------------------------------
// The executable data
// ---------------------------------------------------------------------------

/// One ply of the movetext: the algebraic-notation token, opaque to the
/// parser, and the single comment immediately trailing it, if any. Both
/// borrow from the input buffer; nothing is copied.
#[derive(Debug, Clone, PartialEq, Eq)]
pub struct Move<'s> {
    pub san: &'s [u8],
    pub comment: Option<&'s [u8]>,
}

impl<'s> View for Move<'s> {
    type V = MoveSpec;

    open spec fn view(&self) -> MoveSpec {
        MoveSpec {
            san: self.san@,
            comment: (match self.comment {
                Some(c) => Some(c@),
                None => None,
            }),
        }
    }
}

/// The contents a list of plies holds.
pub open spec fn moves_view<'a>(ms: Seq<Move<'a>>) -> Seq<MoveSpec> {
    ms.map_values(|m: Move<'a>| m@)
}

// ---------------------------------------------------------------------------
// Executable parsing
// ---------------------------------------------------------------------------

fn move_num_at(s: &[u8], i: usize) -> (r: Option<usize>)
    requires
        i <= s@.len(),
    ensures
        (match spec_move_num(s@, i as int) {
            None => r is None,
            Some(j) => r matches Some(rj) && rj as int == j && i <= rj <= s@.len(),
        }),
{
    let d = scan_class(s, i, ByteClass::Digit);
    if d == i {
        None
    } else {
        let e = scan_class(s, d, ByteClass::Dot);
        Some(scan_class(s, e, ByteClass::Ws))
    }
}

fn comment_at<'s>(s: &'s [u8], i: usize) -> (r: Option<(&'s [u8], usize)>)
    requires
        i <= s@.len(),
    ensures
        (match spec_comment(s@, i as int) {
            None => r is None,
            Some((cm, j)) => r matches Some((rc, rj)) && rc@ == cm && rj as int == j && i < rj
                <= s@.len(),
        }),
{
    let n = s.len();
    if check_byte_at(s, i, '{' as u8) {
        let j = scan_class(s, i + 1, ByteClass::BraceComment);
        if j > i + 1 && check_byte_at(s, j, '}' as u8) {
            Some((slice_subrange(s, i + 1, j), j + 1))
        } else {
            None
        }
    } else if check_byte_at(s, i, ';' as u8) {
        let j = scan_class(s, i + 1, ByteClass::LineComment);
        if j > i + 1 && check_byte_at(s, j, '\n' as u8) {
            Some((slice_subrange(s, i + 1, j), j + 1))
        } else {
            None
        }
    } else {
        None
    }
}

fn move_at<'s>(s: &'s [u8], i: usize) -> (r: Option<(Move<'s>, usize)>)
    requires
        i <= s@.len(),
    ensures
        (match spec_move(s@, i as int) {
            None => r is None,
            Some((m, j)) => r matches Some((mv, end)) && mv@ == m && end as int == j && i < end
                <= s@.len(),
        }),
{
    let a = scan_class(s, i, ByteClass::Ws);
    let b = match move_num_at(s, a) {
        Some(j) => j,
        None => a,
    };
    let c = scan_class(s, b, ByteClass::Ws);
    let d = scan_class(s, c, ByteClass::San);
    if d == c {
        return None;
    }
    let e = scan_class(s, d, ByteClass::Ws);
    if e == d {
        return None;
    }
    let san = slice_subrange(s, c, d);
    match comment_at(s, e) {
        Some((cm, f)) => Some((Move { san, comment: Some(cm) }, f)),
        None => Some((Move { san, comment: None }, e)),
    }
}

fn movetext_end_at(s: &[u8], i: usize) -> (r: Option<usize>)
    requires
        i <= s@.len(),
    ensures
        (match spec_movetext_end(s@, i as int) {
            None => r is None,
            Some(j) => r matches Some(rj) && rj as int == j && i <= rj <= s@.len(),
        }),
{
    let n = s.len();
    let w = scan_class(s, i, ByteClass::Ws);
    if check_byte_at(s, w, '[' as u8) {
        return Some(i);
    }
    let l = build_result_lit(0);
    if check_lit_at(s, w, l.as_slice()) {
        return Some(scan_class(s, w + 3, ByteClass::Ws));
    }
    let l = build_result_lit(1);
    if check_lit_at(s, w, l.as_slice()) {
        return Some(scan_class(s, w + 3, ByteClass::Ws));
    }
    let l = build_result_lit(2);
    if check_lit_at(s, w, l.as_slice()) {
        return Some(scan_class(s, w + 7, ByteClass::Ws));
    }
    let l = build_result_lit(3);
    if check_lit_at(s, w, l.as_slice()) {
        return Some(scan_class(s, w + 1, ByteClass::Ws));
    }
    None
}

/// Parses the movetext at position `i` of `s`, exactly as `spec_movetext`
/// describes.
pub(crate) fn movetext_at<'s>(s: &'s [u8], i: usize) -> (r: Result<(Vec<Move<'s>>, usize), PgnError>)
    requires
        i <= s@.len(),
    ensures
        (match spec_movetext(s@, i as int) {
            Ok((ms, e)) => r matches Ok((mv, end)) && moves_view(mv@) == ms && end as int == e
                && i <= end <= s@.len(),
            Err(er) => r matches Err(pe) && pe.kind == er.kind && pe.pos as int == er.pos,
        }),
{
    let mut moves: Vec<Move<'s>> = Vec::new();
    let mut p: usize = i;
    loop
        invariant
            i <= p <= s@.len(),
            (match spec_movetext(s@, p as int) {
                Ok((ms, e)) => spec_movetext(s@, i as int) matches Ok((all, ae)) && all
                    == moves_view(moves@) + ms && ae == e,
                Err(er) => spec_movetext(s@, i as int) matches Err(er2) && er2 == er,
            }),
        decreases s@.len() - p,
    {
        match movetext_end_at(s, p) {
            Some(end) => {
                proof {
                    assert(moves_view(moves@) + Seq::<MoveSpec>::empty() =~= moves_view(moves@));
                }
                return Ok((moves, end));
            },
            None => {
                match move_at(s, p) {
                    None => {
                        return Err(PgnError { kind: PgnErrorKind::MoveGrammar, pos: p });
                    },
                    Some((mv, end)) => {
                        proof {
                            assert(moves_view(moves@.push(mv)) =~= moves_view(moves@) + seq![mv@]);
                            if spec_movetext(s@, end as int) is Ok {
                                let (ms2, e2) = spec_movetext(s@, end as int)->Ok_0;
                                assert((moves_view(moves@) + seq![mv@]) + ms2 =~= moves_view(
                                    moves@,
                                ) + (seq![mv@] + ms2));
                            }
                        }
                        moves.push(mv);
                        p = end;
                    },
                }
            },
        }
    }
}

impl<'s> Move<'s> {
    /// Parses the movetext at the start of `s`, returning the unconsumed
    /// remainder of the input alongside the ordered list of plies.
    pub fn parse_movetext(s: &'s [u8]) -> (r: Result<(&'s [u8], Vec<Move<'s>>), PgnError>)
        ensures
            (match spec_movetext(s@, 0) {
                Ok((ms, e)) => r matches Ok((rest, mv)) && moves_view(mv@) == ms && rest@
                    == s@.subrange(e, s@.len() as int),
                Err(er) => r matches Err(pe) && pe.kind == er.kind && pe.pos as int == er.pos,
            }),
    {
        match movetext_at(s, 0) {
            Ok((mv, end)) => Ok((slice_subrange(s, end, s.len()), mv)),
            Err(e) => Err(e),
        }
    }
}

} // verus!
