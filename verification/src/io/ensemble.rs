//! The files that hold saved ensembles: `./data/ensemble/{tag}-{id}.bin`.

use vstd::prelude::*;
use crate::io::{self, DataType};

verus! {

/// The path of the file that holds the ensemble with this tag and id:
/// `./data/ensemble/{tag}-{id}.bin`.
pub fn get_ensemble_path(tag: &str, id: usize) -> (p: String)
    ensures
        p@ == io::data_path_text(DataType::Ensemble, tag@, id),
{
    io::get_data_path(DataType::Ensemble, tag, id)
}

} // verus!
