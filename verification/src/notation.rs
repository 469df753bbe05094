//! Move notation: parsing whitespace-separated face-turn tokens, rendering
//! moves back to text, the two reorientation notations, and the cheap-set
//! names.
//!
//! A token is one of the six face letters `R L U D F B`, optionally followed
//! by `2` for a half turn or `'` for a reverse quarter turn. An unknown
//! token fails the whole parse with a message naming it.

use vstd::prelude::*;
use vstd::string::*;
use crate::moves::Axis;
use crate::moves::Move;
use crate::moves::TurnMultiple;
use crate::reorient::Reorient;
use crate::solution::Solution;
use crate::solution::expand_spec;

verus! {

/// The characters that separate tokens.
pub open spec fn is_space(c: char) -> bool {
    c == ' ' || c == '\t' || c == '\n' || c == '\r' || c == '\u{c}'
}

/// The first position at or after `i` holding a non-space, or the length.
pub open spec fn skip_spaces(s: Seq<char>, i: int) -> int
    decreases s.len() - i,
{
    if 0 <= i < s.len() && is_space(s[i]) {
        skip_spaces(s, i + 1)
    } else {
        i
    }
}

/// The first position at or after `i` holding a space, or the length.
pub open spec fn token_end(s: Seq<char>, i: int) -> int
    decreases s.len() - i,
{
    if 0 <= i < s.len() && !is_space(s[i]) {
        token_end(s, i + 1)
    } else {
        i
    }
}

/// Skipping spaces stays inside the text and never moves backwards.
pub proof fn lemma_skip_spaces_range(s: Seq<char>, i: int)
    requires
        0 <= i <= s.len(),
    ensures
        i <= skip_spaces(s, i) <= s.len(),
    decreases s.len() - i,
{
    if i < s.len() && is_space(s[i]) {
        lemma_skip_spaces_range(s, i + 1);
    }
}

/// Skipping spaces stops on a non-space or at the end of the text.
pub proof fn lemma_skip_spaces_stops(s: Seq<char>, i: int)
    requires
        0 <= i <= s.len(),
    ensures
        skip_spaces(s, i) < s.len() ==> !is_space(s[skip_spaces(s, i)]),
    decreases s.len() - i,
{
    if i < s.len() && is_space(s[i]) {
        lemma_skip_spaces_stops(s, i + 1);
    }
}

/// A token end stays inside the text and never moves backwards.
pub proof fn lemma_token_end_range(s: Seq<char>, i: int)
    requires
        0 <= i <= s.len(),
    ensures
        i <= token_end(s, i) <= s.len(),
    decreases s.len() - i,
{
    if i < s.len() && !is_space(s[i]) {
        lemma_token_end_range(s, i + 1);
    }
}

/// The move a face letter stands for, with the given turn multiple on the
/// face it names and none on the opposite face.
pub open spec fn letter_move(c: char, multiple: TurnMultiple) -> Option<Move> {
    if c == 'R' {
        Some(Move { axis: Axis::X, positive: multiple, negative: TurnMultiple::Zero })
    } else if c == 'U' {
        Some(Move { axis: Axis::Y, positive: multiple, negative: TurnMultiple::Zero })
    } else if c == 'F' {
        Some(Move { axis: Axis::Z, positive: multiple, negative: TurnMultiple::Zero })
    } else if c == 'L' {
        Some(Move { axis: Axis::X, positive: TurnMultiple::Zero, negative: multiple })
    } else if c == 'D' {
        Some(Move { axis: Axis::Y, positive: TurnMultiple::Zero, negative: multiple })
    } else if c == 'B' {
        Some(Move { axis: Axis::Z, positive: TurnMultiple::Zero, negative: multiple })
    } else {
        None
    }
}

/// Parses one token: a trailing `'` selects a reverse quarter turn, then a
/// trailing `2` a half turn; what remains must be a single face letter.
pub open spec fn parse_token_spec(t: Seq<char>) -> Option<Move> {
    let t1 = if t.len() > 0 && t.last() == '\'' {
        t.drop_last()
    } else {
        t
    };
    let m1 = if t.len() > 0 && t.last() == '\'' {
        TurnMultiple::Ccw
    } else {
        TurnMultiple::Cw
    };
    let t2 = if t1.len() > 0 && t1.last() == '2' {
        t1.drop_last()
    } else {
        t1
    };
    let m2 = if t1.len() > 0 && t1.last() == '2' {
        TurnMultiple::Half
    } else {
        m1
    };
    if t2.len() == 1 {
        letter_move(t2[0], m2)
    } else {
        None
    }
}

/// Parses every token from position `i` on: the moves in order, or the
/// first token that is not valid move notation.
pub open spec fn parse_from(s: Seq<char>, i: int) -> Result<Seq<Move>, Seq<char>>
    decreases s.len() - i,
        when 0 <= i <= s.len()
    via parse_from_decreases
{
    let j = skip_spaces(s, i);
    if j >= s.len() {
        Ok(Seq::empty())
    } else {
        let k = token_end(s, j);
        match parse_token_spec(s.subrange(j, k)) {
            Some(m) => match parse_from(s, k) {
                Ok(rest) => Ok(seq![m] + rest),
                Err(e) => Err(e),
            },
            None => Err(s.subrange(j, k)),
        }
    }
}

#[via_fn]
proof fn parse_from_decreases(s: Seq<char>, i: int) {
    lemma_skip_spaces_range(s, i);
    lemma_skip_spaces_stops(s, i);
    let j = skip_spaces(s, i);
    if j < s.len() {
        lemma_token_end_range(s, j);
        assert(token_end(s, j) == token_end(s, j + 1));
        lemma_token_end_range(s, j + 1);
    }
}

/// The message reported for a token that is not valid move notation.
pub open spec fn err_text(tok: Seq<char>) -> Seq<char> {
    "unknown move \""@ + tok + "\""@
}

/// Whether `c` separates tokens.
fn is_space_char(c: char) -> (r: bool)
    ensures
        r == is_space(c),
{
    c == ' ' || c == '\t' || c == '\n' || c == '\r' || c == '\u{c}'
}

/// Finds the first non-space position at or after `i`.
fn skip_spaces_exec(s: &str, i: usize, n: usize) -> (j: usize)
    requires
        n == s@.len(),
        i <= n,
    ensures
        j == skip_spaces(s@, i as int),
        i <= j <= n,
{
    let mut j = i;
    while j < n
        invariant
            i <= j <= n,
            n == s@.len(),
            skip_spaces(s@, i as int) == skip_spaces(s@, j as int),
        decreases n - j,
    {
        let c = s.get_char(j);
        if !is_space_char(c) {
            return j;
        }
        j = j + 1;
    }
    j
}

/// Finds the first space position at or after `i`.
fn token_end_exec(s: &str, i: usize, n: usize) -> (k: usize)
    requires
        n == s@.len(),
        i <= n,
    ensures
        k == token_end(s@, i as int),
        i <= k <= n,
{
    let mut k = i;
    while k < n
        invariant
            i <= k <= n,
            n == s@.len(),
            token_end(s@, i as int) == token_end(s@, k as int),
        decreases n - k,
    {
        let c = s.get_char(k);
        if is_space_char(c) {
            return k;
        }
        k = k + 1;
    }
    k
}

/// Parses the token occupying `start..end` of `s`.
fn parse_move_token(s: &str, start: usize, end: usize) -> (r: Option<Move>)
    requires
        start < end <= s@.len(),
    ensures
        r == parse_token_spec(s@.subrange(start as int, end as int)),
{
    let ghost t = s@.subrange(start as int, end as int);
    let mut stop = end;
    let mut multiple = TurnMultiple::Cw;
    let last = s.get_char(end - 1);
    if last == '\'' {
        stop = end - 1;
        multiple = TurnMultiple::Ccw;
    }
    proof {
        assert(t.last() == s@[end - 1]);
        if t.last() == '\'' {
            assert(t.drop_last() =~= s@.subrange(start as int, end - 1));
        }
    }
    let ghost t1 = s@.subrange(start as int, stop as int);
    if stop > start {
        let c = s.get_char(stop - 1);
        proof {
            assert(t1.last() == s@[stop - 1]);
        }
        if c == '2' {
            stop = stop - 1;
            multiple = TurnMultiple::Half;
            proof {
                assert(t1.drop_last() =~= s@.subrange(start as int, stop as int));
            }
        }
    }
    let ghost t2 = s@.subrange(start as int, stop as int);
    if stop == start + 1 {
        let c = s.get_char(start);
        proof {
            assert(t2.len() == 1);
            assert(t2[0] == s@[start as int]);
        }
        if c == 'R' {
            Some(Move { axis: Axis::X, positive: multiple, negative: TurnMultiple::Zero })
        } else if c == 'U' {
            Some(Move { axis: Axis::Y, positive: multiple, negative: TurnMultiple::Zero })
        } else if c == 'F' {
            Some(Move { axis: Axis::Z, positive: multiple, negative: TurnMultiple::Zero })
        } else if c == 'L' {
            Some(Move { axis: Axis::X, positive: TurnMultiple::Zero, negative: multiple })
        } else if c == 'D' {
            Some(Move { axis: Axis::Y, positive: TurnMultiple::Zero, negative: multiple })
        } else if c == 'B' {
            Some(Move { axis: Axis::Z, positive: TurnMultiple::Zero, negative: multiple })
        } else {
            None
        }
    } else {
        proof {
            assert(t2.len() != 1);
        }
        None
    }
}

/// Parses a whole input of whitespace-separated move tokens. Succeeds with
/// the moves in order exactly when every token is valid notation; otherwise
/// fails with a message naming the first offending token.
pub fn parse_moves(moves: &String) -> (r: Result<Vec<Move>, String>)
    ensures
        match r {
            Ok(v) => parse_from(moves@, 0) is Ok && v@ == parse_from(moves@, 0)->Ok_0,
            Err(msg) => parse_from(moves@, 0) is Err && msg@ == err_text(
                parse_from(moves@, 0)->Err_0,
            ),
        },
{
    let s: &str = moves.as_str();
    let n = s.unicode_len();
    let mut result: Vec<Move> = Vec::new();
    let mut i: usize = 0;
    loop
        invariant
            i <= n,
            n == s@.len(),
            s@ == moves@,
            parse_from(s@, i as int) is Ok ==> parse_from(s@, 0) is Ok && parse_from(s@, 0)->Ok_0
                == result@ + parse_from(s@, i as int)->Ok_0,
            parse_from(s@, i as int) is Err ==> parse_from(s@, 0) is Err && parse_from(
                s@,
                0,
            )->Err_0 == parse_from(s@, i as int)->Err_0,
        decreases n - i,
    {
        let j = skip_spaces_exec(s, i, n);
        if j >= n {
            proof {
                assert(parse_from(s@, i as int) == Ok::<Seq<Move>, Seq<char>>(Seq::empty()));
                assert(result@ + Seq::<Move>::empty() =~= result@);
            }
            return Ok(result);
        }
        let k = token_end_exec(s, j, n);
        proof {
            lemma_skip_spaces_stops(s@, i as int);
            assert(token_end(s@, j as int) == token_end(s@, j + 1 as int));
            lemma_token_end_range(s@, j + 1 as int);
        }
        match parse_move_token(s, j, k) {
            Some(m) => {
                result.push(m);
                proof {
                    let old_i = i as int;
                    if parse_from(s@, k as int) is Ok {
                        assert(parse_from(s@, old_i)->Ok_0 == seq![m] + parse_from(
                            s@,
                            k as int,
                        )->Ok_0);
                        assert(result@ + parse_from(s@, k as int)->Ok_0 =~= result@.drop_last()
                            + (seq![m] + parse_from(s@, k as int)->Ok_0));
                    }
                }
                i = k;
            },
            None => {
                let tok = s.substring_char(j, k);
                let mut msg = String::from_str("unknown move \"");
                msg.append(tok);
                msg.append("\"");
                proof {
                    assert(parse_from(s@, i as int) is Err);
                    assert(parse_from(s@, i as int)->Err_0 == s@.subrange(j as int, k as int));
                }
                return Err(msg);
            },
        }
    }
}

/// The text of one turn field: the face letter, with `2` for a half turn,
/// `'` for a reverse quarter turn, and nothing for no turn.
pub open spec fn part_text(face: Seq<char>, t: TurnMultiple) -> Seq<char> {
    match t {
        TurnMultiple::Zero => Seq::empty(),
        TurnMultiple::Cw => face,
        TurnMultiple::Half => face + "2"@,
        TurnMultiple::Ccw => face + "'"@,
    }
}

/// The letter of the positive face of an axis.
pub open spec fn pos_face(a: Axis) -> Seq<char> {
    match a {
        Axis::X => "R"@,
        Axis::Y => "U"@,
        Axis::Z => "F"@,
    }
}

/// The letter of the negative face of an axis.
pub open spec fn neg_face(a: Axis) -> Seq<char> {
    match a {
        Axis::X => "L"@,
        Axis::Y => "D"@,
        Axis::Z => "B"@,
    }
}

/// The notation for a move: the positive face's part, then the negative
/// face's part.
pub open spec fn display_move_spec(m: Move) -> Seq<char> {
    part_text(pos_face(m.axis), m.positive) + part_text(neg_face(m.axis), m.negative)
}

/// Renders a move back to face-turn notation.
pub fn display_move(m: Move) -> (r: String)
    ensures
        r@ == display_move_spec(m),
{
    let p: &str = match m.axis {
        Axis::X => "R",
        Axis::Y => "U",
        Axis::Z => "F",
    };
    let q: &str = match m.axis {
        Axis::X => "L",
        Axis::Y => "D",
        Axis::Z => "B",
    };
    proof {
        assert(p@ == pos_face(m.axis));
        assert(q@ == neg_face(m.axis));
    }
    let mut out = String::new();
    match m.positive {
        TurnMultiple::Zero => {},
        TurnMultiple::Cw => {
            out.append(p);
        },
        TurnMultiple::Half => {
            out.append(p);
            out.append("2");
        },
        TurnMultiple::Ccw => {
            out.append(p);
            out.append("'");
        },
    }
    proof {
        assert(out@ =~= part_text(pos_face(m.axis), m.positive));
    }
    let ghost first = out@;
    match m.negative {
        TurnMultiple::Zero => {},
        TurnMultiple::Cw => {
            out.append(q);
        },
        TurnMultiple::Half => {
            out.append(q);
            out.append("2");
        },
        TurnMultiple::Ccw => {
            out.append(q);
            out.append("'");
        },
    }
    proof {
        assert(out@ =~= first + part_text(neg_face(m.axis), m.negative));
    }
    out
}

impl Reorient {
    /// The display text of this reorientation, in the sticker notation or
    /// in the axis-rotation notation, padded as it appears between moves.
    pub open spec fn symbol_spec(self, sticker: bool) -> Seq<char> {
        if sticker {
            match self {
                Reorient::Ident => " "@,
                Reorient::R => " 23I:L "@,
                Reorient::L => " 23I:R "@,
                Reorient::U => " 23I:D "@,
                Reorient::D => " 23I:U "@,
                Reorient::F => " 23I:B "@,
                Reorient::B => " 23I:F "@,
                Reorient::R2 => " 23I:R2 "@,
                Reorient::U2 => " 23I:U2 "@,
                Reorient::F2 => " 23I:F2 "@,
                Reorient::UF => " 23I:UF "@,
                Reorient::UR => " 23I:UR "@,
                Reorient::FR => " 23I:FR "@,
                Reorient::DF => " 23I:DF "@,
                Reorient::UL => " 23I:UL "@,
                Reorient::BR => " 23I:BR "@,
                Reorient::UFR => " 23I:DBL "@,
                Reorient::DBL => " 23I:UFR "@,
                Reorient::UFL => " 23I:DBR "@,
                Reorient::DBR => " 23I:UFL "@,
                Reorient::DFR => " 23I:UBL "@,
                Reorient::UBL => " 23I:DFR "@,
                Reorient::UBR => " 23I:DFL "@,
                Reorient::DFL => " 23I:UBR "@,
            }
        } else {
            match self {
                Reorient::Ident => " "@,
                Reorient::R => " Ox "@,
                Reorient::L => " Ox' "@,
                Reorient::U => " Oy "@,
                Reorient::D => " Oy' "@,
                Reorient::F => " Oz "@,
                Reorient::B => " Oz' "@,
                Reorient::R2 => " Ox2 "@,
                Reorient::U2 => " Oy2 "@,
                Reorient::F2 => " Oz2 "@,
                Reorient::UF => " Oxy2 "@,
                Reorient::UR => " Ozx2 "@,
                Reorient::FR => " Oyz2 "@,
                Reorient::DF => " Oxz2 "@,
                Reorient::UL => " Ozy2 "@,
                Reorient::BR => " Oyx2 "@,
                Reorient::UFR => " Oxy "@,
                Reorient::DBL => " Oy'x' "@,
                Reorient::UFL => " Ozy "@,
                Reorient::DBR => " Oxy' "@,
                Reorient::DFR => " Oxz "@,
                Reorient::UBL => " Oyz' "@,
                Reorient::UBR => " Oyx "@,
                Reorient::DFL => " Ozx' "@,
            }
        }
    }

    /// Renders this reorientation's display text.
    pub fn symbol(self, sticker: bool) -> (r: String)
        ensures
            r@ == self.symbol_spec(sticker),
    {
        if sticker {
            match self {
                Reorient::Ident => String::from_str(" "),
                Reorient::R => String::from_str(" 23I:L "),
                Reorient::L => String::from_str(" 23I:R "),
                Reorient::U => String::from_str(" 23I:D "),
                Reorient::D => String::from_str(" 23I:U "),
                Reorient::F => String::from_str(" 23I:B "),
                Reorient::B => String::from_str(" 23I:F "),
                Reorient::R2 => String::from_str(" 23I:R2 "),
                Reorient::U2 => String::from_str(" 23I:U2 "),
                Reorient::F2 => String::from_str(" 23I:F2 "),
                Reorient::UF => String::from_str(" 23I:UF "),
                Reorient::UR => String::from_str(" 23I:UR "),
                Reorient::FR => String::from_str(" 23I:FR "),
                Reorient::DF => String::from_str(" 23I:DF "),
                Reorient::UL => String::from_str(" 23I:UL "),
                Reorient::BR => String::from_str(" 23I:BR "),
                Reorient::UFR => String::from_str(" 23I:DBL "),
                Reorient::DBL => String::from_str(" 23I:UFR "),
                Reorient::UFL => String::from_str(" 23I:DBR "),
                Reorient::DBR => String::from_str(" 23I:UFL "),
                Reorient::DFR => String::from_str(" 23I:UBL "),
                Reorient::UBL => String::from_str(" 23I:DFR "),
                Reorient::UBR => String::from_str(" 23I:DFL "),
                Reorient::DFL => String::from_str(" 23I:UBR "),
            }
        } else {
            match self {
                Reorient::Ident => String::from_str(" "),
                Reorient::R => String::from_str(" Ox "),
                Reorient::L => String::from_str(" Ox' "),
                Reorient::U => String::from_str(" Oy "),
                Reorient::D => String::from_str(" Oy' "),
                Reorient::F => String::from_str(" Oz "),
                Reorient::B => String::from_str(" Oz' "),
                Reorient::R2 => String::from_str(" Ox2 "),
                Reorient::U2 => String::from_str(" Oy2 "),
                Reorient::F2 => String::from_str(" Oz2 "),
                Reorient::UF => String::from_str(" Oxy2 "),
                Reorient::UR => String::from_str(" Ozx2 "),
                Reorient::FR => String::from_str(" Oyz2 "),
                Reorient::DF => String::from_str(" Oxz2 "),
                Reorient::UL => String::from_str(" Ozy2 "),
                Reorient::BR => String::from_str(" Oyx2 "),
                Reorient::UFR => String::from_str(" Oxy "),
                Reorient::DBL => String::from_str(" Oy'x' "),
                Reorient::UFL => String::from_str(" Ozy "),
                Reorient::DBR => String::from_str(" Oxy' "),
                Reorient::DFR => String::from_str(" Oxz "),
                Reorient::UBL => String::from_str(" Oyz' "),
                Reorient::UBR => String::from_str(" Oyx "),
                Reorient::DFL => String::from_str(" Ozx' "),
            }
        }
    }
}

/// Whether a cheap-set token names this reorientation: the token framed as
/// the axis-rotation notation frames it must equal the symbol exactly.
pub open spec fn egui_name_matches(tok: Seq<char>, r: Reorient) -> bool {
    " O"@ + tok + " "@ == r.symbol_spec(false)
}

/// Whether any token of the cheap-set text from position `i` on names `r`.
pub open spec fn some_token_matches(s: Seq<char>, i: int, r: Reorient) -> bool
    decreases s.len() - i,
        when 0 <= i <= s.len()
    via some_token_matches_decreases
{
    let j = skip_spaces(s, i);
    if j >= s.len() {
        false
    } else {
        let k = token_end(s, j);
        egui_name_matches(s.subrange(j, k), r) || some_token_matches(s, k, r)
    }
}

#[via_fn]
proof fn some_token_matches_decreases(s: Seq<char>, i: int, r: Reorient) {
    lemma_skip_spaces_range(s, i);
    lemma_skip_spaces_stops(s, i);
    let j = skip_spaces(s, i);
    if j < s.len() {
        lemma_token_end_range(s, j);
        assert(token_end(s, j) == token_end(s, j + 1));
        lemma_token_end_range(s, j + 1);
    }
}

/// The cheap-set mask over catalog positions `ri` and up: one bit per
/// reorientation named by some token of the text.
pub open spec fn cheap_mask_spec(s: Seq<char>, ri: int) -> u32
    decreases 24 - ri,
{
    if !(0 <= ri < 24) {
        0u32
    } else if some_token_matches(s, 0, Reorient::spec_from_ordinal(ri)) {
        (1u32 << (ri as u32)) | cheap_mask_spec(s, ri + 1)
    } else {
        cheap_mask_spec(s, ri + 1)
    }
}

/// Whether any token of `s` names `r`.
fn any_token_matches(s: &str, n: usize, r: Reorient) -> (found: bool)
    requires
        n == s@.len(),
    ensures
        found == some_token_matches(s@, 0, r),
{
    let sym = r.symbol(false);
    let mut i: usize = 0;
    loop
        invariant
            i <= n,
            n == s@.len(),
            sym@ == r.symbol_spec(false),
            some_token_matches(s@, 0, r) == some_token_matches(s@, i as int, r),
        decreases n - i,
    {
        let j = skip_spaces_exec(s, i, n);
        if j >= n {
            return false;
        }
        let k = token_end_exec(s, j, n);
        proof {
            lemma_skip_spaces_stops(s@, i as int);
            assert(token_end(s@, j as int) == token_end(s@, j + 1 as int));
            lemma_token_end_range(s@, j + 1 as int);
        }
        let tok = s.substring_char(j, k);
        let mut candidate = String::from_str(" O");
        candidate.append(tok);
        candidate.append(" ");
        if candidate == sym {
            proof {
                assert(egui_name_matches(s@.subrange(j as int, k as int), r));
            }
            return true;
        }
        i = k;
    }
}

/// Builds the cheap-set mask from space-separated reorientation names, each
/// matched case-sensitively against the catalog's axis-rotation notation.
pub fn cheap_mask(names: &String) -> (mask: u32)
    ensures
        mask == cheap_mask_spec(names@, 0),
{
    let s: &str = names.as_str();
    let n = s.unicode_len();
    let mut mask: u32 = 0;
    let mut ri: usize = 24;
    while ri > 0
        invariant
            ri <= 24,
            n == s@.len(),
            s@ == names@,
            mask == cheap_mask_spec(names@, ri as int),
        decreases ri,
    {
        ri = ri - 1;
        let r = Reorient::from_ordinal(ri);
        if any_token_matches(s, n, r) {
            mask = (1u32 << (ri as u32)) | mask;
        }
    }
    mask
}

/// Which bits the cheap-set mask holds: exactly one per named catalog
/// entry.
proof fn lemma_cheap_mask_bits(s: Seq<char>, ri: int, ord: int)
    requires
        0 <= ri <= 24,
        0 <= ord < 24,
    ensures
        (cheap_mask_spec(s, ri) >> (ord as u32)) & 1 == (if ord >= ri
            && some_token_matches(s, 0, Reorient::spec_from_ordinal(ord)) {
            1u32
        } else {
            0u32
        }),
    decreases 24 - ri,
{
    if ri == 24 {
        let ordu = ord as u32;
        assert((0u32 >> ordu) & 1 == 0u32) by (bit_vector);
    } else {
        lemma_cheap_mask_bits(s, ri + 1, ord);
        let rest = cheap_mask_spec(s, ri + 1);
        if some_token_matches(s, 0, Reorient::spec_from_ordinal(ri)) {
            let riu = ri as u32;
            let ordu = ord as u32;
            assert((((1u32 << riu) | rest) >> ordu) & 1 == (if ordu == riu {
                1u32
            } else {
                (rest >> ordu) & 1
            })) by (bit_vector)
                requires
                    riu < 24,
                    ordu < 24,
            ;
        }
    }
}

/// A reorientation named in the cheap set has its cost overridden to one
/// physical turn, no more than any other reorientation could cost.
pub proof fn lemma_cheap_override(s: Seq<char>, r: Reorient)
    requires
        r != Reorient::Ident,
        some_token_matches(s, 0, r),
    ensures
        r.spec_cost(cheap_mask_spec(s, 0)) == 1,
{
    lemma_cheap_mask_bits(s, 0, r.spec_ordinal() as int);
    assert(Reorient::spec_from_ordinal(r.spec_ordinal() as int) == r);
}

/// The rendered text of an annotated move sequence from position `i` on:
/// at each position, the inserted reorientation's symbol if one is
/// recorded, then the move itself.
pub open spec fn render_from(
    exp: Seq<Option<Reorient>>,
    moves: Seq<Move>,
    i: int,
    sticker: bool,
) -> Seq<char>
    decreases moves.len() - i,
{
    if 0 <= i < moves.len() {
        (match exp[i] {
            Some(r) => r.symbol_spec(sticker),
            None => Seq::empty(),
        }) + display_move_spec(moves[i]) + render_from(exp, moves, i + 1, sticker)
    } else {
        Seq::empty()
    }
}

/// The rendered text of a solution record over a move sequence: the moves
/// in order, each preceded by its recorded reorientation's symbol.
pub open spec fn render_spec(sol: Seq<(u8, Reorient)>, moves: Seq<Move>, sticker: bool) -> Seq<
    char,
> {
    render_from(expand_spec(sol, moves.len()), moves, 0, sticker)
}

/// Renders one solution record over the move sequence it annotates.
pub fn render_solution(solution: &Solution, moves: &Vec<Move>, sticker: bool) -> (r: String)
    requires
        forall|i: int| 0 <= i < solution@.len() ==> (#[trigger] solution@[i]).0
            < moves@.len(),
    ensures
        r@ == render_spec(solution@, moves@, sticker),
{
    let n = moves.len();
    let exp = solution.reorients(n);
    proof {
        crate::solution::lemma_expand_len(solution@, n as nat);
    }
    let mut out = String::new();
    let mut i: usize = 0;
    proof {
        assert(Seq::<char>::empty() + render_from(exp@, moves@, 0, sticker) =~= render_from(
            exp@,
            moves@,
            0,
            sticker,
        ));
    }
    while i < n
        invariant
            i <= n,
            n == moves@.len(),
            exp@ == expand_spec(solution@, moves@.len()),
            exp@.len() == n,
            out@ + render_from(exp@, moves@, i as int, sticker) == render_from(
                exp@,
                moves@,
                0,
                sticker,
            ),
        decreases n - i,
    {
        let ghost pre = out@;
        let ghost sym_text = match exp@[i as int] {
            Some(r) => r.symbol_spec(sticker),
            None => Seq::<char>::empty(),
        };
        match exp[i] {
            Some(r) => {
                let sy = r.symbol(sticker);
                out.append(sy.as_str());
            },
            None => {},
        }
        proof {
            assert(out@ == pre + sym_text || (out@ == pre && sym_text =~= Seq::<char>::empty()));
            assert(out@ =~= pre + sym_text);
        }
        let text = display_move(moves[i]);
        out.append(text.as_str());
        proof {
            assert(out@ =~= pre + sym_text + display_move_spec(moves@[i as int]));
            assert(pre + sym_text + display_move_spec(moves@[i as int]) + render_from(
                exp@,
                moves@,
                i + 1 as int,
                sticker,
            ) =~= pre + (sym_text + display_move_spec(moves@[i as int]) + render_from(
                exp@,
                moves@,
                i + 1 as int,
                sticker,
            )));
        }
        i = i + 1;
    }
    proof {
        assert(out@ + Seq::<char>::empty() =~= out@);
    }
    out
}

/// Every move the parser yields turns exactly one face: it is neither the
/// identity nor a two-face move, so a parsed sequence satisfies the
/// search's expectations.
pub proof fn lemma_parse_shape(s: Seq<char>, i: int)
    requires
        0 <= i <= s.len(),
    ensures
        parse_from(s, i) is Ok ==> crate::moves::all_proper(parse_from(s, i)->Ok_0)
            && crate::moves::all_single(parse_from(s, i)->Ok_0),
    decreases s.len() - i,
{
    lemma_skip_spaces_range(s, i);
    lemma_skip_spaces_stops(s, i);
    let j = skip_spaces(s, i);
    if j < s.len() {
        lemma_token_end_range(s, j);
        assert(token_end(s, j) == token_end(s, j + 1));
        lemma_token_end_range(s, j + 1);
        let k = token_end(s, j);
        match parse_token_spec(s.subrange(j, k)) {
            Some(m) => {
                lemma_parse_shape(s, k);
                if parse_from(s, k) is Ok {
                    let rest = parse_from(s, k)->Ok_0;
                    let whole = seq![m] + rest;
                    assert(!m.is_identity() && !m.is_double());
                    assert forall|t: int| 0 <= t < whole.len() implies !(
                    #[trigger] whole[t]).is_identity() && !whole[t].is_double() by {
                        if t == 0 {
                            assert(whole[t] == m);
                        } else {
                            assert(whole[t] == rest[t - 1]);
                        }
                    }
                }
            },
            None => {},
        }
    }
}

} // verus!
