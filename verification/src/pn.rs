//! Place notation: the compact textual encoding of a method's permutations,
//! parsed against a stage into a block of symbols.
//!
//! The grammar, read left to right over the characters of the notation:
//! - 'x', 'X' or '-' is a cross (every pair of adjacent bells swaps);
//! - '.' and ',' end the current group of places;
//! - a bell character ('1'..'9', '0' = ten, 'E' = eleven, 'T' = twelve,
//!   'A' = thirteen, 'B' = fourteen, 'C' = fifteen, 'D' = sixteen) names a
//!   place, which must lie within the stage;
//! - anything else is an error, as is a notation with no symbols at all.

use vstd::prelude::*;
use vstd::string::StrSliceExecFns;
use vstd::string::StringExecFns;
use crate::stage::Stage;

verus! {

/// One symbol of a parsed place-notation block.
#[derive(Debug, Clone, PartialEq, Eq)]
pub enum PnSymbol {
    /// Every pair of adjacent bells swaps.
    Cross,
    /// The named places hold still.
    Places(Vec<u64>),
}

/// Ghost counterpart of [`PnSymbol`].
pub ghost enum PnTok {
    Cross,
    Places(Seq<u64>),
}

impl View for PnSymbol {
    type V = PnTok;

    open spec fn view(&self) -> PnTok {
        match self {
            PnSymbol::Cross => PnTok::Cross,
            PnSymbol::Places(v) => PnTok::Places(v@),
        }
    }
}

/// The views of a sequence of symbols.
pub open spec fn syms_view(v: Seq<PnSymbol>) -> Seq<PnTok> {
    v.map_values(|s: PnSymbol| s@)
}

/// A structured place-notation parse error, with the offending position.
#[derive(Debug, Clone, Copy, PartialEq, Eq, Structural)]
pub enum PnBlockParseError {
    /// A character that is no cross, separator or bell name.
    UnrecognisedChar { index: usize, ch: char },
    /// A bell character naming a place beyond the stage.
    PlaceOutOfStage { index: usize, place: u64 },
    /// A notation that yields no symbols at all.
    EmptyBlock,
}

impl PnBlockParseError {
    /// A human-readable description of the error.
    pub fn message(&self) -> String {
        match self {
            PnBlockParseError::UnrecognisedChar { index: _, ch: _ } => String::from_str(
                "unrecognised character in place notation",
            ),
            PnBlockParseError::PlaceOutOfStage { index: _, place: _ } => String::from_str(
                "place notation names a place beyond the stage",
            ),
            PnBlockParseError::EmptyBlock => String::from_str("empty place-notation block"),
        }
    }
}

/// Is `c` a cross symbol?
pub open spec fn is_cross(c: char) -> bool {
    c == 'x' || c == 'X' || c == '-'
}

/// Is `c` a group separator?
pub open spec fn is_sep(c: char) -> bool {
    c == '.' || c == ','
}

/// The place named by a bell character, if it names one.
pub open spec fn bell_value(c: char) -> Option<u64> {
    let u = c as u32;
    if 49 <= u && u <= 57 {
        Some((u - 48) as u64)
    } else if u == 48 {
        Some(10)
    } else if c == 'E' {
        Some(11)
    } else if c == 'T' {
        Some(12)
    } else if c == 'A' {
        Some(13)
    } else if c == 'B' {
        Some(14)
    } else if c == 'C' {
        Some(15)
    } else if c == 'D' {
        Some(16)
    } else {
        None
    }
}

fn bell_value_exec(c: char) -> (r: Option<u64>)
    ensures
        r == bell_value(c),
{
    let u = c as u32;
    if 49 <= u && u <= 57 {
        Some((u - 48) as u64)
    } else if u == 48 {
        Some(10)
    } else if c == 'E' {
        Some(11)
    } else if c == 'T' {
        Some(12)
    } else if c == 'A' {
        Some(13)
    } else if c == 'B' {
        Some(14)
    } else if c == 'C' {
        Some(15)
    } else if c == 'D' {
        Some(16)
    } else {
        None
    }
}

/// Ends the current places group: pushes it as a symbol unless it is empty.
pub open spec fn flush(out: Seq<PnTok>, group: Seq<u64>) -> Seq<PnTok> {
    if group.len() == 0 {
        out
    } else {
        out.push(PnTok::Places(group))
    }
}

/// The parse of `s` against a stage of `num_bells` bells, from position `i`,
/// with `group` the places read since the last boundary and `out` the
/// symbols already produced.
pub open spec fn pn_parse_at(
    s: Seq<char>,
    num_bells: u64,
    i: int,
    group: Seq<u64>,
    out: Seq<PnTok>,
) -> Result<Seq<PnTok>, PnBlockParseError>
    decreases s.len() - i,
{
    if i < 0 || i >= s.len() {
        let fin = flush(out, group);
        if fin.len() == 0 {
            Err(PnBlockParseError::EmptyBlock)
        } else {
            Ok(fin)
        }
    } else {
        let c = s[i];
        if is_cross(c) {
            pn_parse_at(s, num_bells, i + 1, Seq::empty(), flush(out, group).push(PnTok::Cross))
        } else if is_sep(c) {
            pn_parse_at(s, num_bells, i + 1, Seq::empty(), flush(out, group))
        } else {
            match bell_value(c) {
                Some(p) => if p > num_bells {
                    Err(PnBlockParseError::PlaceOutOfStage { index: i as usize, place: p })
                } else {
                    pn_parse_at(s, num_bells, i + 1, group.push(p), out)
                },
                None => Err(PnBlockParseError::UnrecognisedChar { index: i as usize, ch: c }),
            }
        }
    }
}

/// The parse of a whole place notation against a stage.
pub open spec fn pn_parse(s: Seq<char>, num_bells: u64) -> Result<
    Seq<PnTok>,
    PnBlockParseError,
> {
    pn_parse_at(s, num_bells, 0, Seq::empty(), Seq::empty())
}

/// Pushes the current group as a `Places` symbol unless it is empty, handing
/// back a fresh empty group.
fn flush_group(out: &mut Vec<PnSymbol>, group: Vec<u64>) -> (g: Vec<u64>)
    ensures
        syms_view(final(out)@) == flush(syms_view(old(out)@), group@),
        g@ == Seq::<u64>::empty(),
{
    if group.len() > 0 {
        let ghost before = out@;
        out.push(PnSymbol::Places(group));
        proof {
            assert(syms_view(out@) =~= flush(syms_view(before), out@[out@.len() - 1]->Places_0@));
        }
    }
    Vec::new()
}

/// A parsed place-notation block: the sequence of symbols of one lead.
#[derive(Debug, Clone, PartialEq, Eq)]
pub struct PnBlock {
    pub symbols: Vec<PnSymbol>,
}

impl View for PnBlock {
    type V = Seq<PnTok>;

    open spec fn view(&self) -> Seq<PnTok> {
        syms_view(self.symbols@)
    }
}

impl PnBlock {
    /// Parses a place notation against a stage, yielding the block of
    /// symbols or the first error encountered.
    pub fn parse(s: &str, stage: Stage) -> (r: Result<PnBlock, PnBlockParseError>)
        ensures
            match r {
                Ok(b) => pn_parse(s@, stage.num_bells) == Ok::<_, PnBlockParseError>(b@),
                Err(e) => pn_parse(s@, stage.num_bells) == Err::<Seq<PnTok>, _>(e),
            },
    {
        let len = s.unicode_len();
        let mut out: Vec<PnSymbol> = Vec::new();
        let mut group: Vec<u64> = Vec::new();
        let mut i: usize = 0;
        proof {
            assert(syms_view(out@) =~= Seq::<PnTok>::empty());
        }
        while i < len
            invariant
                len == s@.len(),
                i <= len,
                pn_parse_at(s@, stage.num_bells, i as int, group@, syms_view(out@)) == pn_parse(
                    s@,
                    stage.num_bells,
                ),
            decreases len - i,
        {
            let c = s.get_char(i);
            if c == 'x' || c == 'X' || c == '-' {
                group = flush_group(&mut out, group);
                let ghost flushed = syms_view(out@);
                out.push(PnSymbol::Cross);
                proof {
                    assert(syms_view(out@) =~= flushed.push(PnTok::Cross));
                }
            } else if c == '.' || c == ',' {
                group = flush_group(&mut out, group);
            } else {
                match bell_value_exec(c) {
                    Some(p) => {
                        if p > stage.num_bells {
                            return Err(
                                PnBlockParseError::PlaceOutOfStage { index: i, place: p },
                            );
                        }
                        group.push(p);
                    },
                    None => {
                        return Err(PnBlockParseError::UnrecognisedChar { index: i, ch: c });
                    },
                }
            }
            i += 1;
        }
        group = flush_group(&mut out, group);
        if out.len() == 0 {
            proof {
                assert(syms_view(out@) =~= Seq::<PnTok>::empty());
            }
            Err(PnBlockParseError::EmptyBlock)
        } else {
            Ok(PnBlock { symbols: out })
        }
    }
}

} // verus!
