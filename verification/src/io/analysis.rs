//! Analysis results and their metadata, as kept under `./data/analysis`.

use vstd::prelude::*;
use std::collections::HashMap;

verus! {

/// The results of one analysis of a tagged simulation.
#[derive(Debug, Clone)]
pub struct AnalysisData {
    /// Analysis tag
    pub tag: String,
    /// Tag of the simulation that was analysed
    pub simulation_tag: String,
    /// Kind of analysis
    pub analysis_type: String,
    /// Encoded results
    pub results: Vec<u8>,
}

/// When and with which parameters an analysis was made.
#[derive(Debug, Clone)]
pub struct AnalysisMetadata {
    /// Analysis tag
    pub tag: String,
    /// Tag of the simulation that was analysed
    pub simulation_tag: String,
    /// Parameters of the analysis, by name
    pub parameters: HashMap<String, String>,
    /// Creation time, in seconds since the Unix epoch
    pub created_at: u64,
}

} // verus!
