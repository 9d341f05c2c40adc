//! Integer and decision logic of the nonlinear Breit-Wheeler pair-creation
//! rate in linearly polarized backgrounds: which rate table serves a point,
//! which harmonic orders a quadrature over harmonics needs, how the nodes of
//! a cumulative distribution over harmonics are laid out and read back, and
//! how a sample drawn in one quadrant is spread over the full angular range.
pub mod cdf;
pub mod fold;
pub mod harmonics;
pub mod region;
