//! Results of the analysis of a simulation snapshot.

use vstd::prelude::*;

verus! {

/// The clusters found in one snapshot of a simulation.
#[derive(Debug, Clone)]
pub struct ClusterAnalysisResult {}

} // verus!
