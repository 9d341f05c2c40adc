//! Choice of the rate table that serves a point `(a, eta)`.
//!
//! The total rate is tabulated over two overlapping domains: a dedicated
//! table for mid-range `a`, and a table over the full range of `a`. Where the
//! rate is negligible (below `exp(-200)`), no table is consulted.
use vstd::prelude::*;

verus! {

/// The two tabulated domains of the total rate.
#[derive(PartialEq, Eq, Structural, Clone, Copy, Debug)]
pub enum TableRegion {
    /// The table that covers mid-range values of `a`.
    MidRange,
    /// The table that covers the full range of `a`.
    FullRange,
}

/// Where the total rate at a point comes from.
#[derive(PartialEq, Eq, Structural, Clone, Copy, Debug)]
pub enum RateSource {
    /// The rate is negligibly small and is taken to be zero.
    Negligible,
    /// The rate is interpolated from the given table.
    Table(TableRegion),
    /// The point lies outside both tables and the rate is taken to be zero.
    OutOfRange,
}

/// The table that a lookup uses, given which tables contain the point:
/// the mid-range table is preferred where both contain it.
pub open spec fn preferred_table(in_mid_range: bool, in_full_range: bool) -> Option<TableRegion> {
    if in_mid_range {
        Some(TableRegion::MidRange)
    } else if in_full_range {
        Some(TableRegion::FullRange)
    } else {
        None
    }
}

/// Where the total rate at a point comes from: zero where the rate is
/// negligible, otherwise the preferred table that contains the point, and
/// zero where neither does.
pub open spec fn source_of(negligible: bool, in_mid_range: bool, in_full_range: bool) -> RateSource {
    if negligible {
        RateSource::Negligible
    } else {
        match preferred_table(in_mid_range, in_full_range) {
            Some(t) => RateSource::Table(t),
            None => RateSource::OutOfRange,
        }
    }
}

/// Decides where the total rate at a point comes from, given whether the
/// rate there is negligible and which tables contain the point.
pub fn rate_source(negligible: bool, in_mid_range: bool, in_full_range: bool) -> (res: RateSource)
    ensures
        res == source_of(negligible, in_mid_range, in_full_range),
        negligible ==> res == RateSource::Negligible,
        !negligible && in_mid_range ==> res == RateSource::Table(TableRegion::MidRange),
        !negligible && !in_mid_range && in_full_range ==> res == RateSource::Table(
            TableRegion::FullRange,
        ),
        !negligible && !in_mid_range && !in_full_range ==> res == RateSource::OutOfRange,
{
    if negligible {
        RateSource::Negligible
    } else if in_mid_range {
        RateSource::Table(TableRegion::MidRange)
    } else if in_full_range {
        RateSource::Table(TableRegion::FullRange)
    } else {
        RateSource::OutOfRange
    }
}

/// The table that sampling draws from at a point that some table contains:
/// the mid-range table where it contains the point, else the full-range one.
pub open spec fn sampling_region_of(in_mid_range: bool, in_full_range: bool) -> TableRegion {
    if in_mid_range {
        TableRegion::MidRange
    } else {
        TableRegion::FullRange
    }
}

/// Decides which table the harmonic order of a pair-creation event is drawn
/// from. Sampling is defined only at points that some table contains;
/// elsewhere it is refused, so the point must lie in one of the tables.
pub fn sampling_table(in_mid_range: bool, in_full_range: bool) -> (res: TableRegion)
    requires
        in_mid_range || in_full_range,
    ensures
        res == sampling_region_of(in_mid_range, in_full_range),
        in_mid_range ==> res == TableRegion::MidRange,
        !in_mid_range ==> res == TableRegion::FullRange,
{
    if in_mid_range {
        TableRegion::MidRange
    } else {
        TableRegion::FullRange
    }
}

/// Sampling draws from the same table that the rate is read from: at a
/// point that is not negligible and lies in some table, the rate is read
/// from exactly the table that sampling draws from; at a point in neither
/// table, where sampling is refused, the rate is zero for lying out of
/// range. Where the rate is negligible, no table is read.
pub proof fn lemma_sampling_agrees_with_rate(in_mid_range: bool, in_full_range: bool)
    ensures
        (in_mid_range || in_full_range) ==> source_of(false, in_mid_range, in_full_range)
            == RateSource::Table(sampling_region_of(in_mid_range, in_full_range)),
        !(in_mid_range || in_full_range) ==> source_of(false, in_mid_range, in_full_range)
            == RateSource::OutOfRange,
        source_of(true, in_mid_range, in_full_range) == RateSource::Negligible,
{
}

} // verus!
