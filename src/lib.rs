//! A safe resource-and-protocol layer around the LightGBM native training engine.
//!
//! The library holds the decisions of that layer: how status codes of native calls are
//! read, how training parameters are serialised, how matrices are marshalled across the
//! call surface, the staged builder that guarantees a trainable configuration, and the
//! fit protocol that acquires and releases native handles in a strict order. The native
//! calls themselves are made by the caller, who feeds their outcomes back in.
use vstd::prelude::*;

pub mod error;
pub mod matrix;
pub mod params;
pub mod dataset;
pub mod booster;
pub mod fit;
pub mod builder;

pub use booster::{Booster, EvalResult, LoadedDataSet};
pub use builder::{BoosterBuilder, ParamsAdded, ParamsMissing, TrainDataAdded, TrainDataMissing};
pub use dataset::{Column, DataFormat, DataSet, Frame, LoadRequest};
pub use error::{ErrorKind, LgbmError};
pub use fit::{CallOutcome, FitAction, FitSession, Stage};
pub use params::{parse_params, ParamValue, Params};

verus! {

} // verus!
