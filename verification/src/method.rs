//! Methods and their compact stored form.

use vstd::prelude::*;
use crate::pn::{pn_parse, PnBlock, PnBlockParseError, PnTok};
use crate::stage::Stage;

verus! {

/// An opaque categorical tag describing the structural properties of a
/// method; stored and compared, never decomposed.
#[derive(Debug, Clone, Copy, PartialEq, Eq, Structural, Hash)]
pub struct Classification {
    pub tag: u64,
}

/// A fully materialized method: an independent value handed to the caller.
#[derive(Debug, Clone)]
pub struct Method {
    pub title: String,
    pub name: String,
    pub full_class: Classification,
    pub stage: Stage,
    pub block: PnBlock,
}

/// The stored form of a method: what the catalog keeps per (stage, title).
#[derive(Debug, Clone)]
pub struct CompactMethod {
    pub name: String,
    pub full_class: Classification,
    pub place_notation: String,
}

/// Ghost counterpart of [`CompactMethod`].
pub ghost struct CompactMethodV {
    pub name: Seq<char>,
    pub full_class: Classification,
    pub place_notation: Seq<char>,
}

impl View for CompactMethod {
    type V = CompactMethodV;

    open spec fn view(&self) -> CompactMethodV {
        CompactMethodV {
            name: self.name@,
            full_class: self.full_class,
            place_notation: self.place_notation@,
        }
    }
}

impl CompactMethod {
    /// Materializes this record against a resolved stage: parses the stored
    /// place notation and builds the full method, or hands back the
    /// offending notation with the structured parse error.
    pub fn to_method(&self, stage: Stage, title: String) -> (r: Result<
        Method,
        (String, PnBlockParseError),
    >)
        ensures
            match pn_parse(self.place_notation@, stage.num_bells) {
                Ok::<Seq<PnTok>, _>(toks) => r matches Ok(m) && m.title@ == title@ && m.name@
                    == self.name@ && m.full_class == self.full_class && m.stage == stage
                    && m.block@ == toks,
                Err(e) => r matches Err(p) && p.0@ == self.place_notation@ && p.1 == e,
            },
    {
        match PnBlock::parse(self.place_notation.as_str(), stage) {
            Ok(block) => Ok(
                Method {
                    title,
                    name: self.name.clone(),
                    full_class: self.full_class,
                    stage,
                    block,
                },
            ),
            Err(e) => Err((self.place_notation.clone(), e)),
        }
    }
}

} // verus!
