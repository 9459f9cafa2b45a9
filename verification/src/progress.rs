//! Progress events the engine emits toward an external observer.
//!
//! The engine is synchronous and pure, so instead of calling an injected
//! callback it returns the exact trace of (stage, message) events it would
//! emit, in order; the embedding forwards them. Percentages are carried as
//! hundredths (two implied decimal places) so the trace stays integral.
use vstd::prelude::*;

verus! {

/// The stage names an event is tagged with.
#[derive(Clone, Copy, PartialEq, Eq, Structural, Debug)]
pub enum Stage {
    ImageLoad,
    ExtractColor,
    Dither,
}

/// The message of one progress event.
#[derive(Clone, Copy, PartialEq, Eq, Structural, Debug)]
pub enum ProgressMessage {
    LoadingOriginal,
    LoadingColorSource,
    Loaded,
    ExtractingPalette,
    PaletteExtracted,
    MethodParsed,
    /// A completion percentage in hundredths: 4273 reads as 42.73%.
    Percent(u32),
    Processing,
    Processed,
}

/// One (stage, message) pair sent outward; never retained by the engine.
#[derive(Clone, Copy, PartialEq, Eq, Structural, Debug)]
pub struct ProgressEvent {
    pub stage: Stage,
    pub message: ProgressMessage,
}

/// The percentage, in hundredths, that `index` of `total` pixels amounts
/// to, rounded to the nearest hundredth (halves up).
pub open spec fn pct_hundredths_spec(index: int, total: int) -> int
    recommends
        0 < total,
{
    (index * 20000 + total) / (2 * total)
}

/// The event reported when pixel `index` of `total` is reached.
pub open spec fn pct_event(index: int, total: int) -> ProgressEvent {
    ProgressEvent {
        stage: Stage::Dither,
        message: ProgressMessage::Percent(pct_hundredths_spec(index, total) as u32),
    }
}

/// How many periodic events a pass over `i` pixels emits: one per started
/// block of 1000.
pub open spec fn n_pct_events(i: int) -> int {
    (i + 999) / 1000
}

/// The full periodic-percentage trace of a pass over `total` pixels: one
/// event per 1000th pixel, by traversal index.
pub open spec fn pct_events(total: int) -> Seq<ProgressEvent> {
    Seq::new(n_pct_events(total) as nat, |j: int| pct_event(1000 * j, total))
}

/// Computes the percentage, in hundredths, that `index` of `total` is.
pub fn pct_hundredths(index: usize, total: usize) -> (r: u32)
    requires
        0 < total,
        index < total,
    ensures
        r as int == pct_hundredths_spec(index as int, total as int),
{
    proof {
        assert(((index as int) * 20000 + total as int) / (2 * (total as int)) <= 10000)
            by (nonlinear_arith)
            requires
                0 < total as int,
                index < total,
        ;
        assert(((index as int) * 20000 + total as int) / (2 * (total as int)) >= 0)
            by (nonlinear_arith)
            requires
                0 < total as int,
                0 <= index,
        ;
    }
    let wide: u128 = (index as u128) * 20000 + (total as u128);
    (wide / (2 * (total as u128))) as u32
}

} // verus!
