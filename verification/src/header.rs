//! The header block of a game: seven mandatory tag-pair lines in fixed order,
//! then any number of further tag-pair lines routed to recognized optional
//! fields or to an ordered overflow list.
//!
//! A tag-pair line reads `[` then a key (one or more bytes, no space) then a
//! single space then `"` then a value (one or more bytes, no `"`) then `"]`
//! then a newline. The grammar has no escape for a quote inside a value: a
//! literal `"` there ends the value early. This is an accepted limitation of
//! the format as parsed here.

use vstd::prelude::*;

use crate::error::{ErrSpec, PgnError, PgnErrorKind};
use crate::scan::{byte_at, bytes_eq, check_byte_at, lemma_scan_ge, scan, scan_class, ByteClass};
use vstd::slice::slice_subrange;

verus! {

// ---------------------------------------------------------------------------
// Tag names of the grammar
// ---------------------------------------------------------------------------

pub open spec fn name_event() -> Seq<u8> {
    seq!['E' as u8, 'v' as u8, 'e' as u8, 'n' as u8, 't' as u8]
}

pub open spec fn name_site() -> Seq<u8> {
    seq!['S' as u8, 'i' as u8, 't' as u8, 'e' as u8]
}

pub open spec fn name_date() -> Seq<u8> {
    seq!['D' as u8, 'a' as u8, 't' as u8, 'e' as u8]
}

pub open spec fn name_round() -> Seq<u8> {
    seq!['R' as u8, 'o' as u8, 'u' as u8, 'n' as u8, 'd' as u8]
}

pub open spec fn name_white() -> Seq<u8> {
    seq!['W' as u8, 'h' as u8, 'i' as u8, 't' as u8, 'e' as u8]
}

pub open spec fn name_black() -> Seq<u8> {
    seq!['B' as u8, 'l' as u8, 'a' as u8, 'c' as u8, 'k' as u8]
}

pub open spec fn name_result() -> Seq<u8> {
    seq!['R' as u8, 'e' as u8, 's' as u8, 'u' as u8, 'l' as u8, 't' as u8]
}

/// The name of the `idx`-th mandatory tag, in the fixed order the grammar
/// demands: Event, Site, Date, Round, White, Black, Result.
pub open spec fn mandatory_name(idx: int) -> Seq<u8> {
    if idx == 0 {
        name_event()
    } else if idx == 1 {
        name_site()
    } else if idx == 2 {
        name_date()
    } else if idx == 3 {
        name_round()
    } else if idx == 4 {
        name_white()
    } else if idx == 5 {
        name_black()
    } else {
        name_result()
    }
}

pub open spec fn key_annotator() -> Seq<u8> {
    seq!['A' as u8, 'n' as u8, 'n' as u8, 'o' as u8, 't' as u8, 'a' as u8, 't' as u8, 'o' as u8, 'r' as u8]
}

pub open spec fn key_ply_count() -> Seq<u8> {
    seq!['P' as u8, 'l' as u8, 'y' as u8, 'C' as u8, 'o' as u8, 'u' as u8, 'n' as u8, 't' as u8]
}

pub open spec fn key_time_control() -> Seq<u8> {
    seq!['T' as u8, 'i' as u8, 'm' as u8, 'e' as u8, 'C' as u8, 'o' as u8, 'n' as u8, 't' as u8, 'r' as u8, 'o' as u8, 'l' as u8]
}

pub open spec fn key_time() -> Seq<u8> {
    seq!['T' as u8, 'i' as u8, 'm' as u8, 'e' as u8]
}

pub open spec fn key_termination() -> Seq<u8> {
    seq!['T' as u8, 'e' as u8, 'r' as u8, 'm' as u8, 'i' as u8, 'n' as u8, 'a' as u8, 't' as u8, 'i' as u8, 'o' as u8, 'n' as u8]
}

pub open spec fn key_mode() -> Seq<u8> {
    seq!['M' as u8, 'o' as u8, 'd' as u8, 'e' as u8]
}

pub open spec fn key_fen() -> Seq<u8> {
    seq!['F' as u8, 'E' as u8, 'N' as u8]
}

/// The recognized optional keys, indexed in the order the router tries them.
pub open spec fn recognized_key(idx: int) -> Seq<u8> {
    if idx == 0 {
        key_annotator()
    } else if idx == 1 {
        key_ply_count()
    } else if idx == 2 {
        key_time_control()
    } else if idx == 3 {
        key_time()
    } else if idx == 4 {
        key_termination()
    } else if idx == 5 {
        key_mode()
    } else {
        key_fen()
    }
}

/// Which recognized optional field the key `k` routes to: an index below 7,
/// or 7 when the key is unrecognized and the tag overflows.
pub open spec fn spec_recognized_index(k: Seq<u8>) -> int {
    if k == key_annotator() {
        0
    } else if k == key_ply_count() {
        1
    } else if k == key_time_control() {
        2
    } else if k == key_time() {
        3
    } else if k == key_termination() {
        4
    } else if k == key_mode() {
        5
    } else if k == key_fen() {
        6
    } else {
        7
    }
}

pub open spec fn is_recognized(k: Seq<u8>) -> bool {
    spec_recognized_index(k) < 7
}

// ---------------------------------------------------------------------------
// The tag-pair line grammar
// ---------------------------------------------------------------------------

/// One parsed tag-pair line: the key, the quoted value, and the position
/// just past the line's terminating newline.
pub ghost struct TagSpec {
    pub key: Seq<u8>,
    pub value: Seq<u8>,
    pub end: int,
}

/// Parses one tag-pair line at position `i`: `[` key ` "` value `"]` newline,
/// where the key is a maximal nonempty run without spaces and the value a
/// maximal nonempty run without quotes. `None` when the line does not match.
pub open spec fn spec_tag(s: Seq<u8>, i: int) -> Option<TagSpec> {
    if !byte_at(s, i, '[' as u8) {
        None
    } else {
        let k_end = scan(s, i + 1, ByteClass::TagKey);
        if k_end == i + 1 || !byte_at(s, k_end, ' ' as u8) {
            None
        } else if !byte_at(s, k_end + 1, '"' as u8) {
            None
        } else {
            let v_end = scan(s, k_end + 2, ByteClass::TagValue);
            if v_end == k_end + 2 || !byte_at(s, v_end, '"' as u8) {
                None
            } else if !byte_at(s, v_end + 1, ']' as u8) {
                None
            } else if !byte_at(s, v_end + 2, '\n' as u8) {
                None
            } else {
                Some(TagSpec {
                    key: s.subrange(i + 1, k_end),
                    value: s.subrange(k_end + 2, v_end),
                    end: v_end + 3,
                })
            }
        }
    }
}

/// A matched tag-pair line lies within the input and consumes at least one
/// byte.
pub proof fn lemma_tag_bounds(s: Seq<u8>, i: int)
    requires
        spec_tag(s, i) is Some,
    ensures
        i < spec_tag(s, i).unwrap().end <= s.len(),
        0 <= i,
{
    let k_end = scan(s, i + 1, ByteClass::TagKey);
    lemma_scan_ge(s, i + 1, ByteClass::TagKey);
    let v_end = scan(s, k_end + 2, ByteClass::TagValue);
    lemma_scan_ge(s, k_end + 2, ByteClass::TagValue);
}

/// A named mandatory tag line: a tag-pair line whose key is exactly `name`.
pub open spec fn spec_named_tag(s: Seq<u8>, i: int, name: Seq<u8>) -> Option<(Seq<u8>, int)> {
    match spec_tag(s, i) {
        None => None,
        Some(t) => if t.key == name {
            Some((t.value, t.end))
        } else {
            None
        },
    }
}

// ---------------------------------------------------------------------------
// The result grammar
// ---------------------------------------------------------------------------

/// The outcome recorded in a header's `Result` tag.
#[derive(Clone, Copy, Debug, PartialEq, Eq, Structural)]
pub enum PgnGameResult {
    WhiteWin,
    BlackWin,
    Draw,
    Other,
}

pub open spec fn lit_white_win() -> Seq<u8> {
    seq!['1' as u8, '-' as u8, '0' as u8]
}

pub open spec fn lit_black_win() -> Seq<u8> {
    seq!['0' as u8, '-' as u8, '1' as u8]
}

pub open spec fn lit_draw() -> Seq<u8> {
    seq!['1' as u8, '/' as u8, '2' as u8, '-' as u8, '1' as u8, '/' as u8, '2' as u8]
}

pub open spec fn lit_other() -> Seq<u8> {
    seq!['*' as u8]
}

/// Maps a `Result` tag value onto the outcome it denotes. The value must be
/// exactly one of the four literals; anything else is no outcome.
pub open spec fn spec_result_value(v: Seq<u8>) -> Option<PgnGameResult> {
    if v == lit_white_win() {
        Some(PgnGameResult::WhiteWin)
    } else if v == lit_black_win() {
        Some(PgnGameResult::BlackWin)
    } else if v == lit_draw() {
        Some(PgnGameResult::Draw)
    } else if v == lit_other() {
        Some(PgnGameResult::Other)
    } else {
        None
    }
}

// ---------------------------------------------------------------------------
// The run of optional tag-pair lines and their routing
// ---------------------------------------------------------------------------

/// Parses tag-pair lines at `i` until one fails to match, returning the
/// (key, value) pairs in input order and the position after the last match.
pub open spec fn spec_tags(s: Seq<u8>, i: int) -> (Seq<(Seq<u8>, Seq<u8>)>, int)
    decreases s.len() - i,
{
    match spec_tag(s, i) {
        None => (Seq::empty(), i),
        Some(t) => if i < t.end <= s.len() {
            let (rest, end) = spec_tags(s, t.end);
            (seq![(t.key, t.value)] + rest, end)
        } else {
            // unreachable: a matched tag always advances within bounds
            (seq![(t.key, t.value)], t.end)
        },
    }
}

/// The value of the last tag in `tags` that routes to recognized field
/// `idx`, or `None` when no tag does: a repeated optional tag is resolved in
/// favour of its last occurrence.
pub open spec fn last_value(tags: Seq<(Seq<u8>, Seq<u8>)>, idx: int) -> Option<Seq<u8>>
    decreases tags.len(),
{
    if tags.len() == 0 {
        None
    } else if spec_recognized_index(tags.last().0) == idx {
        Some(tags.last().1)
    } else {
        last_value(tags.drop_last(), idx)
    }
}

/// The tags of `tags` whose keys no recognized field claims, in input order:
/// the overflow list of the header.
pub open spec fn overflow_of(tags: Seq<(Seq<u8>, Seq<u8>)>) -> Seq<(Seq<u8>, Seq<u8>)>
    decreases tags.len(),
{
    if tags.len() == 0 {
        Seq::empty()
    } else {
        let rest = overflow_of(tags.drop_last());
        if is_recognized(tags.last().0) {
            rest
        } else {
            rest.push(tags.last())
        }
    }
}

// ---------------------------------------------------------------------------
// The header model
// ---------------------------------------------------------------------------

/// The mathematical form of a parsed header: the seven mandatory values, the
/// recognized optional values, and the ordered overflow list.
pub ghost struct HeaderSpec {
    pub event: Seq<u8>,
    pub site: Seq<u8>,
    pub date: Seq<u8>,
    pub round: Seq<u8>,
    pub white: Seq<u8>,
    pub black: Seq<u8>,
    pub result: PgnGameResult,
    pub annotator: Option<Seq<u8>>,
    pub ply_count: Option<Seq<u8>>,
    pub time_control: Option<Seq<u8>>,
    pub time: Option<Seq<u8>>,
    pub termination: Option<Seq<u8>>,
    pub mode: Option<Seq<u8>>,
    pub fen: Option<Seq<u8>>,
    pub others: Seq<(Seq<u8>, Seq<u8>)>,
}

/// Builds the header from the seven mandatory values, the parsed outcome,
/// and the optional tag list: each recognized field takes the last value
/// routed to it, the rest overflow in order.
pub open spec fn header_of(
    event: Seq<u8>,
    site: Seq<u8>,
    date: Seq<u8>,
    round: Seq<u8>,
    white: Seq<u8>,
    black: Seq<u8>,
    result: PgnGameResult,
    tags: Seq<(Seq<u8>, Seq<u8>)>,
) -> HeaderSpec {
    HeaderSpec {
        event,
        site,
        date,
        round,
        white,
        black,
        result,
        annotator: last_value(tags, 0),
        ply_count: last_value(tags, 1),
        time_control: last_value(tags, 2),
        time: last_value(tags, 3),
        termination: last_value(tags, 4),
        mode: last_value(tags, 5),
        fen: last_value(tags, 6),
        others: overflow_of(tags),
    }
}

/// Parses a header block at position `i`: the seven mandatory tags in fixed
/// order (failing with a mandatory-tag error at the first that does not
/// match), the `Result` value against the result grammar (failing with a
/// result-literal error at that tag's line), then zero or more optional
/// tag-pair lines, routed by `header_of`.
pub open spec fn spec_header(s: Seq<u8>, i: int) -> Result<(HeaderSpec, int), ErrSpec> {
    match spec_named_tag(s, i, name_event()) {
        None => Err(ErrSpec { kind: PgnErrorKind::MandatoryTag, pos: i }),
        Some((event, p1)) => match spec_named_tag(s, p1, name_site()) {
            None => Err(ErrSpec { kind: PgnErrorKind::MandatoryTag, pos: p1 }),
            Some((site, p2)) => match spec_named_tag(s, p2, name_date()) {
                None => Err(ErrSpec { kind: PgnErrorKind::MandatoryTag, pos: p2 }),
                Some((date, p3)) => match spec_named_tag(s, p3, name_round()) {
                    None => Err(ErrSpec { kind: PgnErrorKind::MandatoryTag, pos: p3 }),
                    Some((round, p4)) => match spec_named_tag(s, p4, name_white()) {
                        None => Err(ErrSpec { kind: PgnErrorKind::MandatoryTag, pos: p4 }),
                        Some((white, p5)) => match spec_named_tag(s, p5, name_black()) {
                            None => Err(ErrSpec { kind: PgnErrorKind::MandatoryTag, pos: p5 }),
                            Some((black, p6)) => match spec_named_tag(s, p6, name_result()) {
                                None => Err(ErrSpec { kind: PgnErrorKind::MandatoryTag, pos: p6 }),
                                Some((result_v, p7)) => match spec_result_value(result_v) {
                                    None => Err(ErrSpec { kind: PgnErrorKind::ResultLiteral, pos: p6 }),
                                    Some(result) => {
                                        let (tags, end) = spec_tags(s, p7);
                                        Ok((header_of(event, site, date, round, white, black, result, tags), end))
                                    },
                                },
                            },
                        },
                    },
                },
            },
        },
    }
}

// ---------------------------------------------------------------------------
// Views of the executable data onto the model
// ---------------------------------------------------------------------------

/// The contents an optional borrowed field holds.
pub open spec fn opt_view(o: Option<&[u8]>) -> Option<Seq<u8>> {
    match o {
        Some(v) => Some(v@),
        None => None,
    }
}

/// The contents a list of borrowed (key, value) pairs holds.
pub open spec fn tags_view(ts: Seq<(&[u8], &[u8])>) -> Seq<(Seq<u8>, Seq<u8>)> {
    ts.map_values(|t: (&[u8], &[u8])| (t.0@, t.1@))
}

/// The tag-pair block of one game. All text fields borrow from the input
/// buffer the header was parsed from; nothing is copied.
#[derive(Debug, Clone)]
pub struct PgnGameHeader<'s> {
    pub event: &'s [u8],
    pub site: &'s [u8],
    pub date: &'s [u8],
    pub round: &'s [u8],
    pub white: &'s [u8],
    pub black: &'s [u8],
    pub result: PgnGameResult,

    pub annotator: Option<&'s [u8]>,
    pub ply_count: Option<&'s [u8]>,
    pub time_control: Option<&'s [u8]>,
    pub time: Option<&'s [u8]>,
    pub termination: Option<&'s [u8]>,
    pub mode: Option<&'s [u8]>,
    pub fen: Option<&'s [u8]>,

    pub others: Vec<(&'s [u8], &'s [u8])>,
}

impl<'s> View for PgnGameHeader<'s> {
    type V = HeaderSpec;

    open spec fn view(&self) -> HeaderSpec {
        HeaderSpec {
            event: self.event@,
            site: self.site@,
            date: self.date@,
            round: self.round@,
            white: self.white@,
            black: self.black@,
            result: self.result,
            annotator: opt_view(self.annotator),
            ply_count: opt_view(self.ply_count),
            time_control: opt_view(self.time_control),
            time: opt_view(self.time),
            termination: opt_view(self.termination),
            mode: opt_view(self.mode),
            fen: opt_view(self.fen),
            others: tags_view(self.others@),
        }
    }
}

// ---------------------------------------------------------------------------
// Executable tag-name literals
// ---------------------------------------------------------------------------

/// The name of the `idx`-th mandatory tag, as bytes.
fn build_mandatory_name(idx: usize) -> (v: Vec<u8>)
    requires
        idx < 7,
    ensures
        v@ == mandatory_name(idx as int),
{
    let mut v: Vec<u8> = Vec::new();
    match idx {
        0 => {
            v.push('E' as u8);
            v.push('v' as u8);
            v.push('e' as u8);
            v.push('n' as u8);
            v.push('t' as u8);
        },
        1 => {
            v.push('S' as u8);
            v.push('i' as u8);
            v.push('t' as u8);
            v.push('e' as u8);
        },
        2 => {
            v.push('D' as u8);
            v.push('a' as u8);
            v.push('t' as u8);
            v.push('e' as u8);
        },
        3 => {
            v.push('R' as u8);
            v.push('o' as u8);
            v.push('u' as u8);
            v.push('n' as u8);
            v.push('d' as u8);
        },
        4 => {
            v.push('W' as u8);
            v.push('h' as u8);
            v.push('i' as u8);
            v.push('t' as u8);
            v.push('e' as u8);
        },
        5 => {
            v.push('B' as u8);
            v.push('l' as u8);
            v.push('a' as u8);
            v.push('c' as u8);
            v.push('k' as u8);
        },
        _ => {
            v.push('R' as u8);
            v.push('e' as u8);
            v.push('s' as u8);
            v.push('u' as u8);
            v.push('l' as u8);
            v.push('t' as u8);
        },
    }
    proof {
        assert(v@ =~= mandatory_name(idx as int));
    }
    v
}

/// The `idx`-th recognized optional key, as bytes.
fn build_recognized_key(idx: usize) -> (v: Vec<u8>)
    requires
        idx < 7,
    ensures
        v@ == recognized_key(idx as int),
{
    let mut v: Vec<u8> = Vec::new();
    match idx {
        0 => {
            v.push('A' as u8);
            v.push('n' as u8);
            v.push('n' as u8);
            v.push('o' as u8);
            v.push('t' as u8);
            v.push('a' as u8);
            v.push('t' as u8);
            v.push('o' as u8);
            v.push('r' as u8);
        },
        1 => {
            v.push('P' as u8);
            v.push('l' as u8);
            v.push('y' as u8);
            v.push('C' as u8);
            v.push('o' as u8);
            v.push('u' as u8);
            v.push('n' as u8);
            v.push('t' as u8);
        },
        2 => {
            v.push('T' as u8);
            v.push('i' as u8);
            v.push('m' as u8);
            v.push('e' as u8);
            v.push('C' as u8);
            v.push('o' as u8);
            v.push('n' as u8);
            v.push('t' as u8);
            v.push('r' as u8);
            v.push('o' as u8);
            v.push('l' as u8);
        },
        3 => {
            v.push('T' as u8);
            v.push('i' as u8);
            v.push('m' as u8);
            v.push('e' as u8);
        },
        4 => {
            v.push('T' as u8);
            v.push('e' as u8);
            v.push('r' as u8);
            v.push('m' as u8);
            v.push('i' as u8);
            v.push('n' as u8);
            v.push('a' as u8);
            v.push('t' as u8);
            v.push('i' as u8);
            v.push('o' as u8);
            v.push('n' as u8);
        },
        5 => {
            v.push('M' as u8);
            v.push('o' as u8);
            v.push('d' as u8);
            v.push('e' as u8);
        },
        _ => {
            v.push('F' as u8);
            v.push('E' as u8);
            v.push('N' as u8);
        },
    }
    proof {
        assert(v@ =~= recognized_key(idx as int));
    }
    v
}

/// The `idx`-th result literal: `1-0`, `0-1`, `1/2-1/2`, `*`.
pub open spec fn result_lit(idx: int) -> Seq<u8> {
    if idx == 0 {
        lit_white_win()
    } else if idx == 1 {
        lit_black_win()
    } else if idx == 2 {
        lit_draw()
    } else {
        lit_other()
    }
}

pub(crate) fn build_result_lit(idx: usize) -> (v: Vec<u8>)
    requires
        idx < 4,
    ensures
        v@ == result_lit(idx as int),
{
    let mut v: Vec<u8> = Vec::new();
    match idx {
        0 => {
            v.push('1' as u8);
            v.push('-' as u8);
            v.push('0' as u8);
        },
        1 => {
            v.push('0' as u8);
            v.push('-' as u8);
            v.push('1' as u8);
        },
        2 => {
            v.push('1' as u8);
            v.push('/' as u8);
            v.push('2' as u8);
            v.push('-' as u8);
            v.push('1' as u8);
            v.push('/' as u8);
            v.push('2' as u8);
        },
        _ => {
            v.push('*' as u8);
        },
    }
    proof {
        assert(v@ =~= result_lit(idx as int));
    }
    v
}

// ---------------------------------------------------------------------------
// Executable tag-pair parsing
// ---------------------------------------------------------------------------

/// Parses one tag-pair line at `i`, returning the key, the value, and the
/// position past the line, exactly as `spec_tag` describes.
pub(crate) fn tag_at<'s>(s: &'s [u8], i: usize) -> (r: Option<(&'s [u8], &'s [u8], usize)>)
    requires
        i <= s@.len(),
    ensures
        (match spec_tag(s@, i as int) {
            None => r is None,
            Some(t) => r matches Some((k, v, end)) && k@ == t.key && v@ == t.value
                && end as int == t.end && i < end <= s@.len(),
        }),
{
    let n = s.len();
    if !check_byte_at(s, i, '[' as u8) {
        return None;
    }
    let k_end = scan_class(s, i + 1, ByteClass::TagKey);
    if k_end == i + 1 || !check_byte_at(s, k_end, ' ' as u8) {
        return None;
    }
    if !check_byte_at(s, k_end + 1, '"' as u8) {
        return None;
    }
    let v_end = scan_class(s, k_end + 2, ByteClass::TagValue);
    if v_end == k_end + 2 || !check_byte_at(s, v_end, '"' as u8) {
        return None;
    }
    if !check_byte_at(s, v_end + 1, ']' as u8) {
        return None;
    }
    if !check_byte_at(s, v_end + 2, '\n' as u8) {
        return None;
    }
    let key = slice_subrange(s, i + 1, k_end);
    let value = slice_subrange(s, k_end + 2, v_end);
    Some((key, value, v_end + 3))
}

/// Parses the tag-pair line at `i` and accepts it only when its key is
/// exactly `name`, as `spec_named_tag` describes.
fn named_tag_at<'s>(s: &'s [u8], i: usize, name: &[u8]) -> (r: Option<(&'s [u8], usize)>)
    requires
        i <= s@.len(),
    ensures
        (match spec_named_tag(s@, i as int, name@) {
            None => r is None,
            Some((v, end)) => r matches Some((rv, rend)) && rv@ == v && rend as int == end
                && i < rend <= s@.len(),
        }),
{
    match tag_at(s, i) {
        None => None,
        Some((k, v, end)) => {
            if bytes_eq(k, name) {
                Some((v, end))
            } else {
                None
            }
        },
    }
}

/// Maps a `Result` tag value onto an outcome, exactly as `spec_result_value`
/// describes: the value must equal one of the four literals.
fn parse_result(v: &[u8]) -> (r: Option<PgnGameResult>)
    ensures
        r == spec_result_value(v@),
{
    let w = build_result_lit(0);
    if bytes_eq(v, w.as_slice()) {
        return Some(PgnGameResult::WhiteWin);
    }
    let w = build_result_lit(1);
    if bytes_eq(v, w.as_slice()) {
        return Some(PgnGameResult::BlackWin);
    }
    let w = build_result_lit(2);
    if bytes_eq(v, w.as_slice()) {
        return Some(PgnGameResult::Draw);
    }
    let w = build_result_lit(3);
    if bytes_eq(v, w.as_slice()) {
        return Some(PgnGameResult::Other);
    }
    None
}

/// Parses a header block at position `i` of `s`, exactly as `spec_header`
/// describes: on success the header and the position past its last tag-pair
/// line; on failure the failing rule and position.
pub(crate) fn header_at<'s>(s: &'s [u8], i: usize) -> (r: Result<(PgnGameHeader<'s>, usize), PgnError>)
    requires
        i <= s@.len(),
    ensures
        (match spec_header(s@, i as int) {
            Ok((h, n)) => r matches Ok((hdr, end)) && hdr@ == h && end as int == n
                && i < end <= s@.len(),
            Err(e) => r matches Err(pe) && pe.kind == e.kind && pe.pos as int == e.pos,
        }),
{
    let name = build_mandatory_name(0);
    let (event, p1) = match named_tag_at(s, i, name.as_slice()) {
        Some(x) => x,
        None => {
            return Err(PgnError { kind: PgnErrorKind::MandatoryTag, pos: i });
        },
    };
    let name = build_mandatory_name(1);
    let (site, p2) = match named_tag_at(s, p1, name.as_slice()) {
        Some(x) => x,
        None => {
            return Err(PgnError { kind: PgnErrorKind::MandatoryTag, pos: p1 });
        },
    };
    let name = build_mandatory_name(2);
    let (date, p3) = match named_tag_at(s, p2, name.as_slice()) {
        Some(x) => x,
        None => {
            return Err(PgnError { kind: PgnErrorKind::MandatoryTag, pos: p2 });
        },
    };
    let name = build_mandatory_name(3);
    let (round, p4) = match named_tag_at(s, p3, name.as_slice()) {
        Some(x) => x,
        None => {
            return Err(PgnError { kind: PgnErrorKind::MandatoryTag, pos: p3 });
        },
    };
    let name = build_mandatory_name(4);
    let (white, p5) = match named_tag_at(s, p4, name.as_slice()) {
        Some(x) => x,
        None => {
            return Err(PgnError { kind: PgnErrorKind::MandatoryTag, pos: p4 });
        },
    };
    let name = build_mandatory_name(5);
    let (black, p6) = match named_tag_at(s, p5, name.as_slice()) {
        Some(x) => x,
        None => {
            return Err(PgnError { kind: PgnErrorKind::MandatoryTag, pos: p5 });
        },
    };
    let name = build_mandatory_name(6);
    let (result_v, p7) = match named_tag_at(s, p6, name.as_slice()) {
        Some(x) => x,
        None => {
            return Err(PgnError { kind: PgnErrorKind::MandatoryTag, pos: p6 });
        },
    };
    let result = match parse_result(result_v) {
        Some(x) => x,
        None => {
            return Err(PgnError { kind: PgnErrorKind::ResultLiteral, pos: p6 });
        },
    };

    // The run of optional tag-pair lines.
    let mut tags: Vec<(&'s [u8], &'s [u8])> = Vec::new();
    let mut p: usize = p7;
    loop
        invariant
            p7 <= p <= s@.len(),
            spec_tags(s@, p7 as int).0 == tags_view(tags@) + spec_tags(s@, p as int).0,
            spec_tags(s@, p7 as int).1 == spec_tags(s@, p as int).1,
        ensures
            p <= s@.len(),
            spec_tags(s@, p7 as int).0 == tags_view(tags@),
            spec_tags(s@, p7 as int).1 == p as int,
        decreases s@.len() - p,
    {
        match tag_at(s, p) {
            None => {
                proof {
                    assert(spec_tags(s@, p as int).0 =~= Seq::<(Seq<u8>, Seq<u8>)>::empty());
                    assert(tags_view(tags@) + spec_tags(s@, p as int).0 =~= tags_view(tags@));
                }
                break;
            },
            Some((k, v, end)) => {
                proof {
                    let old_view = tags_view(tags@);
                    let t = spec_tag(s@, p as int).unwrap();
                    assert(spec_tags(s@, p as int).0 == seq![(t.key, t.value)] + spec_tags(
                        s@,
                        t.end,
                    ).0);
                    assert(old_view + (seq![(k@, v@)] + spec_tags(s@, end as int).0) =~= (old_view
                        + seq![(k@, v@)]) + spec_tags(s@, end as int).0);
                    assert(tags_view(tags@.push((k, v))) =~= old_view + seq![(k@, v@)]);
                }
                tags.push((k, v));
                p = end;
            },
        }
    }

    // Route each optional tag to its recognized field or to the overflow
    // list; a repeated recognized key keeps its last value.
    let key0 = build_recognized_key(0);
    let key1 = build_recognized_key(1);
    let key2 = build_recognized_key(2);
    let key3 = build_recognized_key(3);
    let key4 = build_recognized_key(4);
    let key5 = build_recognized_key(5);
    let key6 = build_recognized_key(6);
    let mut annotator: Option<&'s [u8]> = None;
    let mut ply_count: Option<&'s [u8]> = None;
    let mut time_control: Option<&'s [u8]> = None;
    let mut time: Option<&'s [u8]> = None;
    let mut termination: Option<&'s [u8]> = None;
    let mut mode: Option<&'s [u8]> = None;
    let mut fen: Option<&'s [u8]> = None;
    let mut others: Vec<(&'s [u8], &'s [u8])> = Vec::new();
    let ghost all_tags = tags_view(tags@);
    let mut idx: usize = 0;
    while idx < tags.len()
        invariant
            idx <= tags@.len(),
            all_tags == tags_view(tags@),
            key0@ == recognized_key(0),
            key1@ == recognized_key(1),
            key2@ == recognized_key(2),
            key3@ == recognized_key(3),
            key4@ == recognized_key(4),
            key5@ == recognized_key(5),
            key6@ == recognized_key(6),
            opt_view(annotator) == last_value(all_tags.take(idx as int), 0),
            opt_view(ply_count) == last_value(all_tags.take(idx as int), 1),
            opt_view(time_control) == last_value(all_tags.take(idx as int), 2),
            opt_view(time) == last_value(all_tags.take(idx as int), 3),
            opt_view(termination) == last_value(all_tags.take(idx as int), 4),
            opt_view(mode) == last_value(all_tags.take(idx as int), 5),
            opt_view(fen) == last_value(all_tags.take(idx as int), 6),
            tags_view(others@) == overflow_of(all_tags.take(idx as int)),
        decreases tags@.len() - idx,
    {
        let (tk, tv) = tags[idx];
        proof {
            assert(all_tags.take(idx + 1).drop_last() =~= all_tags.take(idx as int));
            assert(all_tags.take(idx + 1).last() == all_tags[idx as int]);
            assert(all_tags[idx as int] == (tk@, tv@));
        }
        if bytes_eq(tk, key0.as_slice()) {
            annotator = Some(tv);
        } else if bytes_eq(tk, key1.as_slice()) {
            ply_count = Some(tv);
        } else if bytes_eq(tk, key2.as_slice()) {
            time_control = Some(tv);
        } else if bytes_eq(tk, key3.as_slice()) {
            time = Some(tv);
        } else if bytes_eq(tk, key4.as_slice()) {
            termination = Some(tv);
        } else if bytes_eq(tk, key5.as_slice()) {
            mode = Some(tv);
        } else if bytes_eq(tk, key6.as_slice()) {
            fen = Some(tv);
        } else {
            proof {
                assert(tags_view(others@.push((tk, tv))) =~= tags_view(others@).push((tk@, tv@)));
            }
            others.push((tk, tv));
        }
        idx = idx + 1;
    }
    proof {
        assert(all_tags.take(tags@.len() as int) =~= all_tags);
    }

    Ok((
        PgnGameHeader {
            event,
            site,
            date,
            round,
            white,
            black,
            result,
            annotator,
            ply_count,
            time_control,
            time,
            termination,
            mode,
            fen,
            others,
        },
        p,
    ))
}

// ---------------------------------------------------------------------------
// Bounds of the header grammar
// ---------------------------------------------------------------------------

/// The run of optional tag-pair lines stays within the input.
pub proof fn lemma_tags_bounds(s: Seq<u8>, i: int)
    requires
        0 <= i <= s.len(),
    ensures
        i <= spec_tags(s, i).1 <= s.len(),
    decreases s.len() - i,
{
    match spec_tag(s, i) {
        None => {},
        Some(t) => {
            lemma_tag_bounds(s, i);
            lemma_tags_bounds(s, t.end);
        },
    }
}

/// A parsed header block consumes at least one byte and stays within the
/// input.
pub proof fn lemma_header_bounds(s: Seq<u8>, i: int)
    requires
        0 <= i <= s.len(),
        spec_header(s, i) is Ok,
    ensures
        i < spec_header(s, i)->Ok_0.1 <= s.len(),
{
    lemma_tag_bounds(s, i);
    let p1 = spec_named_tag(s, i, name_event())->Some_0.1;
    lemma_tag_bounds(s, p1);
    let p2 = spec_named_tag(s, p1, name_site())->Some_0.1;
    lemma_tag_bounds(s, p2);
    let p3 = spec_named_tag(s, p2, name_date())->Some_0.1;
    lemma_tag_bounds(s, p3);
    let p4 = spec_named_tag(s, p3, name_round())->Some_0.1;
    lemma_tag_bounds(s, p4);
    let p5 = spec_named_tag(s, p4, name_white())->Some_0.1;
    lemma_tag_bounds(s, p5);
    let p6 = spec_named_tag(s, p5, name_black())->Some_0.1;
    lemma_tag_bounds(s, p6);
    let p7 = spec_named_tag(s, p6, name_result())->Some_0.1;
    lemma_tags_bounds(s, p7);
}

/// A tag-pair line parses the same wherever it stands: parsing `s` at
/// `d + i` is parsing the suffix of `s` at `d` from `i`, with the end
/// position shifted back by `d`.
pub proof fn lemma_tag_skip(s: Seq<u8>, d: int, i: int)
    requires
        0 <= d,
        0 <= i,
        d + i <= s.len(),
    ensures
        (match spec_tag(s.skip(d), i) {
            None => spec_tag(s, d + i) is None,
            Some(t) => spec_tag(s, d + i) == Some(TagSpec {
                key: t.key,
                value: t.value,
                end: t.end + d,
            }),
        }),
{
    let t = s.skip(d);
    assert(forall|x: int| 0 <= x < t.len() ==> t[x] == s[d + x]);
    if byte_at(t, i, '[' as u8) {
        crate::scan::lemma_scan_skip(s, d, i + 1, ByteClass::TagKey);
        let k_end = scan(t, i + 1, ByteClass::TagKey);
        crate::scan::lemma_scan(t, i + 1, ByteClass::TagKey);
        if k_end != i + 1 && byte_at(t, k_end, ' ' as u8) && byte_at(t, k_end + 1, '"' as u8) {
            crate::scan::lemma_scan_skip(s, d, k_end + 2, ByteClass::TagValue);
            let v_end = scan(t, k_end + 2, ByteClass::TagValue);
            crate::scan::lemma_scan(t, k_end + 2, ByteClass::TagValue);
            if v_end != k_end + 2 && byte_at(t, v_end, '"' as u8) && byte_at(t, v_end + 1, ']' as u8)
                && byte_at(t, v_end + 2, '\n' as u8) {
                assert(s.subrange(d + i + 1, d + k_end) =~= t.subrange(i + 1, k_end));
                assert(s.subrange(d + k_end + 2, d + v_end) =~= t.subrange(k_end + 2, v_end));
            }
        }
    }
}

/// A run of tag-pair lines parses the same wherever it stands: the pairs
/// are those of the suffix, the end position is shifted back.
pub proof fn lemma_tags_skip(s: Seq<u8>, d: int, i: int)
    requires
        0 <= d,
        0 <= i,
        d + i <= s.len(),
    ensures
        spec_tags(s, d + i).0 == spec_tags(s.skip(d), i).0,
        spec_tags(s, d + i).1 == d + spec_tags(s.skip(d), i).1,
    decreases s.len() - d - i,
{
    let t = s.skip(d);
    lemma_tag_skip(s, d, i);
    match spec_tag(t, i) {
        None => {},
        Some(t0) => {
            lemma_tag_bounds(t, i);
            lemma_tags_skip(s, d, t0.end);
        },
    }
}

// ---------------------------------------------------------------------------
// Laws of the routing and of the result grammar
// ---------------------------------------------------------------------------

/// Each recognized key routes to its own field: the router's index of the
/// `j`-th recognized key is `j` itself, for every `j`.
pub proof fn lemma_recognized_key_index()
    ensures
        spec_recognized_index(recognized_key(0)) == 0,
        spec_recognized_index(recognized_key(1)) == 1,
        spec_recognized_index(recognized_key(2)) == 2,
        spec_recognized_index(recognized_key(3)) == 3,
        spec_recognized_index(recognized_key(4)) == 4,
        spec_recognized_index(recognized_key(5)) == 5,
        spec_recognized_index(recognized_key(6)) == 6,
{
    assert(key_annotator().len() == 9);
    assert(key_ply_count().len() == 8);
    assert(key_time_control().len() == 11);
    assert(key_time().len() == 4);
    assert(key_termination().len() == 11);
    assert(key_mode().len() == 4);
    assert(key_fen().len() == 3);
    assert(key_time_control()[1] == 'i' as u8);
    assert(key_termination()[1] == 'e' as u8);
    assert(key_time()[0] == 'T' as u8);
    assert(key_mode()[0] == 'M' as u8);
}

/// Routing a tag list whose every key is recognized leaves the overflow
/// list empty.
pub proof fn lemma_all_recognized_no_overflow(tags: Seq<(Seq<u8>, Seq<u8>)>)
    requires
        forall|k: int| 0 <= k < tags.len() ==> is_recognized((#[trigger] tags[k]).0),
    ensures
        overflow_of(tags) == Seq::<(Seq<u8>, Seq<u8>)>::empty(),
    decreases tags.len(),
{
    if tags.len() > 0 {
        assert(forall|k: int|
            0 <= k < tags.drop_last().len() ==> (#[trigger] tags.drop_last()[k]) == tags[k]);
        lemma_all_recognized_no_overflow(tags.drop_last());
    }
}

/// A recognized field carries exactly the value of the last tag routed to
/// it: when the tag at `k` routes to field `idx` and no later tag does, the
/// field holds that tag's value.
pub proof fn lemma_last_routed_value(tags: Seq<(Seq<u8>, Seq<u8>)>, idx: int, k: int)
    requires
        0 <= k < tags.len(),
        spec_recognized_index(tags[k].0) == idx,
        forall|l: int| k < l < tags.len() ==> spec_recognized_index((#[trigger] tags[l]).0) != idx,
    ensures
        last_value(tags, idx) == Some(tags[k].1),
    decreases tags.len(),
{
    if k < tags.len() - 1 {
        assert(forall|l: int|
            0 <= l < tags.drop_last().len() ==> (#[trigger] tags.drop_last()[l]) == tags[l]);
        lemma_last_routed_value(tags.drop_last(), idx, k);
    }
}

/// The overflow list is exactly the subsequence of tags with unrecognized
/// keys, in input order.
pub proof fn lemma_overflow_is_filter(tags: Seq<(Seq<u8>, Seq<u8>)>)
    ensures
        overflow_of(tags) == tags.filter(|t: (Seq<u8>, Seq<u8>)| !is_recognized(t.0)),
    decreases tags.len(),
{
    reveal(Seq::filter);
    if tags.len() > 0 {
        lemma_overflow_is_filter(tags.drop_last());
    }
}

/// The text of one tag-pair line holding `key` and `value`.
pub open spec fn tag_line(key: Seq<u8>, value: Seq<u8>) -> Seq<u8> {
    seq!['[' as u8] + key + seq![' ' as u8, '"' as u8] + value + seq![
        '"' as u8,
        ']' as u8,
        '\n' as u8,
    ]
}

/// Whether `key` can be written as the key of a tag-pair line: nonempty,
/// no spaces.
pub open spec fn wf_tag_key(key: Seq<u8>) -> bool {
    key.len() > 0 && (forall|k: int| 0 <= k < key.len() ==> key[k] != ' ' as u8)
}

/// Whether `value` can be written as the quoted value of a tag-pair line:
/// nonempty, no quotes.
pub open spec fn wf_tag_value(value: Seq<u8>) -> bool {
    value.len() > 0 && (forall|k: int| 0 <= k < value.len() ==> value[k] != '"' as u8)
}

/// Whether every pair of `tags` can be written as a tag-pair line.
pub open spec fn wf_tags_text(tags: Seq<(Seq<u8>, Seq<u8>)>) -> bool {
    forall|k: int|
        0 <= k < tags.len() ==> wf_tag_key((#[trigger] tags[k]).0) && wf_tag_value(tags[k].1)
}

/// A key and value written as a tag-pair line parse back to exactly
/// themselves, whatever text follows the line: the quoted value of a tag's
/// source line is the value the tag carries.
pub proof fn lemma_tag_line_round_trip(key: Seq<u8>, value: Seq<u8>, rest: Seq<u8>)
    requires
        wf_tag_key(key),
        wf_tag_value(value),
    ensures
        spec_tag(tag_line(key, value) + rest, 0) == Some(TagSpec {
            key,
            value,
            end: tag_line(key, value).len() as int,
        }),
{
    let s = tag_line(key, value) + rest;
    let kl = key.len() as int;
    let vl = value.len() as int;
    assert(s[0] == '[' as u8);
    assert(forall|k: int| 0 <= k < kl ==> s[1 + k] == key[k]);
    assert(s[1 + kl] == ' ' as u8);
    assert(s[2 + kl] == '"' as u8);
    assert(forall|k: int| 0 <= k < vl ==> s[3 + kl + k] == value[k]);
    assert(s[3 + kl + vl] == '"' as u8);
    assert(s[4 + kl + vl] == ']' as u8);
    assert(s[5 + kl + vl] == '\n' as u8);
    crate::scan::lemma_scan_exact(s, 1, 1 + kl, ByteClass::TagKey);
    crate::scan::lemma_scan_exact(s, 3 + kl, 3 + kl + vl, ByteClass::TagValue);
    assert(s.subrange(1, 1 + kl) =~= key);
    assert(s.subrange(3 + kl, 3 + kl + vl) =~= value);
    assert(tag_line(key, value).len() == 6 + kl + vl);
}

/// The text of a run of tag-pair lines, one per pair, in order.
pub open spec fn lines_text(tags: Seq<(Seq<u8>, Seq<u8>)>) -> Seq<u8>
    decreases tags.len(),
{
    if tags.len() == 0 {
        Seq::empty()
    } else {
        tag_line(tags.first().0, tags.first().1) + lines_text(tags.drop_first())
    }
}

/// Well-formed pairs written as consecutive tag-pair lines parse back to
/// exactly those pairs, in order, when what follows the lines starts no
/// tag-pair line of its own.
#[verifier::rlimit(50)]
pub proof fn lemma_tags_round_trip(tags: Seq<(Seq<u8>, Seq<u8>)>, rest: Seq<u8>)
    requires
        wf_tags_text(tags),
        spec_tag(rest, 0) is None,
    ensures
        spec_tags(lines_text(tags) + rest, 0).0 == tags,
        spec_tags(lines_text(tags) + rest, 0).1 == lines_text(tags).len(),
    decreases tags.len(),
{
    let s = lines_text(tags) + rest;
    if tags.len() == 0 {
        assert(s =~= rest);
    } else {
        let first = tags.first();
        let tl = tags.drop_first();
        let line = tag_line(first.0, first.1);
        let tail = lines_text(tl) + rest;
        let l1 = line.len() as int;
        assert(s =~= line + tail);
        lemma_tag_line_round_trip(first.0, first.1, tail);
        assert(spec_tag(s, 0) == Some(TagSpec { key: first.0, value: first.1, end: l1 }));
        lemma_tags_skip(s, l1, 0);
        assert(s.skip(l1) =~= tail);
        assert(forall|k: int| 0 <= k < tl.len() ==> (#[trigger] tl[k]) == tags[k + 1]);
        lemma_tags_round_trip(tl, rest);
        assert(seq![(first.0, first.1)] + tl =~= tags);
    }
}

/// The text of a whole header block: the seven mandatory lines in grammar
/// order, then the optional lines.
pub open spec fn header_text(
    ev: Seq<u8>,
    si: Seq<u8>,
    da: Seq<u8>,
    ro: Seq<u8>,
    wh: Seq<u8>,
    bl: Seq<u8>,
    re: Seq<u8>,
    opts: Seq<(Seq<u8>, Seq<u8>)>,
) -> Seq<u8> {
    tag_line(name_event(), ev) + tag_line(name_site(), si) + tag_line(name_date(), da) + tag_line(
        name_round(),
        ro,
    ) + tag_line(name_white(), wh) + tag_line(name_black(), bl) + tag_line(name_result(), re)
        + lines_text(opts)
}

/// The seven mandatory names are well-formed tag keys.
pub proof fn lemma_names_wf()
    ensures
        wf_tag_key(name_event()),
        wf_tag_key(name_site()),
        wf_tag_key(name_date()),
        wf_tag_key(name_round()),
        wf_tag_key(name_white()),
        wf_tag_key(name_black()),
        wf_tag_key(name_result()),
{
}

/// One tag-pair line within a larger text: at a position whose suffix is
/// the line followed by `tail`, the named tag parses to the line's value,
/// and the text after the line is `tail`.
proof fn lemma_named_line_at(s: Seq<u8>, d: int, name: Seq<u8>, value: Seq<u8>, tail: Seq<u8>)
    requires
        0 <= d <= s.len(),
        wf_tag_key(name),
        wf_tag_value(value),
        s.skip(d) == tag_line(name, value) + tail,
    ensures
        spec_named_tag(s, d, name) == Some((value, d + tag_line(name, value).len())),
        s.skip(d + tag_line(name, value).len()) == tail,
{
    let line = tag_line(name, value);
    let l = line.len() as int;
    lemma_tag_skip(s, d, 0);
    lemma_tag_line_round_trip(name, value, tail);
    vstd::seq_lib::lemma_seq_skip_of_skip(s, d, l);
    vstd::seq_lib::lemma_seq_append_take_skip(line, tail, l);
    assert(s.skip(d + l) =~= tail);
}

/// Assembles a header parse from its parts: when the seven named tags, the
/// result literal, and the optional run are known, the header parse is their
/// composition.
proof fn lemma_header_assemble(
    s: Seq<u8>,
    ev: Seq<u8>,
    si: Seq<u8>,
    da: Seq<u8>,
    ro: Seq<u8>,
    wh: Seq<u8>,
    bl: Seq<u8>,
    re: Seq<u8>,
    opts: Seq<(Seq<u8>, Seq<u8>)>,
    p1: int,
    p2: int,
    p3: int,
    p4: int,
    p5: int,
    p6: int,
    p7: int,
    end: int,
)
    requires
        spec_named_tag(s, 0, name_event()) == Some((ev, p1)),
        spec_named_tag(s, p1, name_site()) == Some((si, p2)),
        spec_named_tag(s, p2, name_date()) == Some((da, p3)),
        spec_named_tag(s, p3, name_round()) == Some((ro, p4)),
        spec_named_tag(s, p4, name_white()) == Some((wh, p5)),
        spec_named_tag(s, p5, name_black()) == Some((bl, p6)),
        spec_named_tag(s, p6, name_result()) == Some((re, p7)),
        spec_result_value(re) is Some,
        spec_tags(s, p7) == (opts, end),
    ensures
        spec_header(s, 0) == Ok::<(HeaderSpec, int), ErrSpec>(
            (header_of(ev, si, da, ro, wh, bl, spec_result_value(re)->Some_0, opts), end),
        ),
{
}

/// Round trip of a whole header block: well-formed values written as a
/// header block parse back to exactly that header. Every mandatory field is
/// the quoted value of its line, the result is the outcome its literal
/// denotes, every recognized optional field holds the last value routed to
/// it, and the overflow list holds the unrecognized tags in input order.
#[verifier::rlimit(50)]
pub proof fn lemma_header_round_trip(
    ev: Seq<u8>,
    si: Seq<u8>,
    da: Seq<u8>,
    ro: Seq<u8>,
    wh: Seq<u8>,
    bl: Seq<u8>,
    re: Seq<u8>,
    opts: Seq<(Seq<u8>, Seq<u8>)>,
    rest: Seq<u8>,
)
    requires
        wf_tag_value(ev),
        wf_tag_value(si),
        wf_tag_value(da),
        wf_tag_value(ro),
        wf_tag_value(wh),
        wf_tag_value(bl),
        wf_tag_value(re),
        spec_result_value(re) is Some,
        wf_tags_text(opts),
        spec_tag(rest, 0) is None,
    ensures
        spec_header(header_text(ev, si, da, ro, wh, bl, re, opts) + rest, 0)
            == Ok::<(HeaderSpec, int), ErrSpec>(
            (
                header_of(ev, si, da, ro, wh, bl, spec_result_value(re)->Some_0, opts),
                header_text(ev, si, da, ro, wh, bl, re, opts).len() as int,
            ),
        ),
{
    lemma_names_wf();
    let l1 = tag_line(name_event(), ev);
    let l2 = tag_line(name_site(), si);
    let l3 = tag_line(name_date(), da);
    let l4 = tag_line(name_round(), ro);
    let l5 = tag_line(name_white(), wh);
    let l6 = tag_line(name_black(), bl);
    let l7 = tag_line(name_result(), re);
    let lo = lines_text(opts);
    let s = header_text(ev, si, da, ro, wh, bl, re, opts) + rest;
    let t7 = lo + rest;
    let t6 = l7 + t7;
    let t5 = l6 + t6;
    let t4 = l5 + t5;
    let t3 = l4 + t4;
    let t2 = l3 + t3;
    let t1 = l2 + t2;
    let d1: int = 0;
    let d2 = d1 + l1.len();
    let d3 = d2 + l2.len();
    let d4 = d3 + l3.len();
    let d5 = d4 + l4.len();
    let d6 = d5 + l5.len();
    let d7 = d6 + l6.len();
    let d8 = d7 + l7.len();

    let b2 = l1 + l2;
    let b3 = b2 + l3;
    let b4 = b3 + l4;
    let b5 = b4 + l5;
    let b6 = b5 + l6;
    let b7 = b6 + l7;
    vstd::seq_lib::lemma_concat_associative(b7, lo, rest);
    vstd::seq_lib::lemma_concat_associative(b6, l7, t7);
    vstd::seq_lib::lemma_concat_associative(b5, l6, t6);
    vstd::seq_lib::lemma_concat_associative(b4, l5, t5);
    vstd::seq_lib::lemma_concat_associative(b3, l4, t4);
    vstd::seq_lib::lemma_concat_associative(b2, l3, t3);
    vstd::seq_lib::lemma_concat_associative(l1, l2, t2);
    assert(s == l1 + t1);
    assert(s.skip(d1) =~= s);
    lemma_named_line_at(s, d1, name_event(), ev, t1);
    lemma_named_line_at(s, d2, name_site(), si, t2);
    lemma_named_line_at(s, d3, name_date(), da, t3);
    lemma_named_line_at(s, d4, name_round(), ro, t4);
    lemma_named_line_at(s, d5, name_white(), wh, t5);
    lemma_named_line_at(s, d6, name_black(), bl, t6);
    lemma_named_line_at(s, d7, name_result(), re, t7);

    lemma_tags_skip(s, d8, 0);
    lemma_tags_round_trip(opts, rest);
    assert(spec_tags(s, d8).0 == opts);
    assert(spec_tags(s, d8).1 == d8 + lo.len());

    assert(header_text(ev, si, da, ro, wh, bl, re, opts).len() == d8 + lo.len());
    lemma_header_assemble(s, ev, si, da, ro, wh, bl, re, opts, d2, d3, d4, d5, d6, d7, d8, d8 + lo.len());
}

/// One tag for every recognized optional key, and no other, routes each
/// field to exactly the quoted value of its line and overflows nothing.
/// Together with `lemma_header_round_trip` this says: a header block
/// holding the seven mandatory tags plus every recognized optional tag
/// parses with each optional field populated with exactly the value from
/// its source line, and an empty overflow list.
pub proof fn lemma_full_header_fields(
    ev: Seq<u8>,
    si: Seq<u8>,
    da: Seq<u8>,
    ro: Seq<u8>,
    wh: Seq<u8>,
    bl: Seq<u8>,
    r: PgnGameResult,
    an: Seq<u8>,
    pc: Seq<u8>,
    tc: Seq<u8>,
    tv: Seq<u8>,
    te: Seq<u8>,
    md: Seq<u8>,
    fe: Seq<u8>,
)
    ensures
        ({
            let h = header_of(
                ev,
                si,
                da,
                ro,
                wh,
                bl,
                r,
                seq![
                    (key_annotator(), an),
                    (key_ply_count(), pc),
                    (key_time_control(), tc),
                    (key_time(), tv),
                    (key_termination(), te),
                    (key_mode(), md),
                    (key_fen(), fe),
                ],
            );
            h.annotator == Some(an) && h.ply_count == Some(pc) && h.time_control == Some(tc)
                && h.time == Some(tv) && h.termination == Some(te) && h.mode == Some(md) && h.fen
                == Some(fe) && h.others == Seq::<(Seq<u8>, Seq<u8>)>::empty()
        }),
{
    let opts = seq![
        (key_annotator(), an),
        (key_ply_count(), pc),
        (key_time_control(), tc),
        (key_time(), tv),
        (key_termination(), te),
        (key_mode(), md),
        (key_fen(), fe),
    ];
    lemma_recognized_key_index();
    lemma_last_routed_value(opts, 0, 0);
    lemma_last_routed_value(opts, 1, 1);
    lemma_last_routed_value(opts, 2, 2);
    lemma_last_routed_value(opts, 3, 3);
    lemma_last_routed_value(opts, 4, 4);
    lemma_last_routed_value(opts, 5, 5);
    lemma_last_routed_value(opts, 6, 6);
    lemma_all_recognized_no_overflow(opts);
}

/// The result grammar maps the four literals to their outcomes and every
/// other value to a result-literal failure.
pub proof fn lemma_result_mapping()
    ensures
        spec_result_value(lit_white_win()) == Some(PgnGameResult::WhiteWin),
        spec_result_value(lit_black_win()) == Some(PgnGameResult::BlackWin),
        spec_result_value(lit_draw()) == Some(PgnGameResult::Draw),
        spec_result_value(lit_other()) == Some(PgnGameResult::Other),
        forall|v: Seq<u8>|
            v != lit_white_win() && v != lit_black_win() && v != lit_draw() && v != lit_other()
                ==> #[trigger] spec_result_value(v) is None,
{
}

impl<'s> PgnGameHeader<'s> {
    /// Parses the header block at the start of `s`, returning the unconsumed
    /// remainder of the input alongside the header.
    pub fn parse_header(s: &'s [u8]) -> (r: Result<(&'s [u8], PgnGameHeader<'s>), PgnError>)
        ensures
            (match spec_header(s@, 0) {
                Ok((h, n)) => r matches Ok((rest, hdr)) && hdr@ == h && rest@ == s@.subrange(
                    n,
                    s@.len() as int,
                ),
                Err(e) => r matches Err(pe) && pe.kind == e.kind && pe.pos as int == e.pos,
            }),
    {
        match header_at(s, 0) {
            Ok((hdr, end)) => Ok((slice_subrange(s, end, s.len()), hdr)),
            Err(e) => Err(e),
        }
    }
}

} // verus!
