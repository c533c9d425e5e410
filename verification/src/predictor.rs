//! What the library hands to a predictor and takes back from it. The
//! predictor itself is not part of the library: it maps a normalized window
//! to a normalized value, and its caller writes that value into the batch.

use crate::price_data::Company;
use vstd::prelude::*;

verus! {

/// Number of days for which a purchase is held.
pub const HOLD_LENGTH: usize = 1;

/// Where a trained predictor is kept.
#[derive(Debug)]
pub struct StockPredictor {
    pub artifact_dir: String,
}

impl StockPredictor {
    pub fn new(artifact_dir: String) -> (r: Self)
        ensures
            r.artifact_dir == artifact_dir,
    {
        StockPredictor { artifact_dir }
    }
}

/// The shape of the predictor: the width of its input and of its hidden
/// layer.
#[derive(Clone, Copy, Debug, PartialEq, Eq, Structural)]
pub struct ModelConfig {
    pub num_classes: usize,
    pub hidden_size: usize,
}

impl ModelConfig {
    pub fn new(num_classes: usize, hidden_size: usize) -> (r: Self)
        ensures
            r == (ModelConfig { num_classes, hidden_size }),
    {
        ModelConfig { num_classes, hidden_size }
    }
}

/// One company's window of one day, normalized, and beside it what the
/// predictor answered. `targets` holds the window's own last value: it keeps
/// the shape of a training sample and is what the answer is measured
/// against, never a price of the future.
#[derive(Debug)]
pub struct NormCompanyPriceDataBatch {
    pub company: Company,
    pub data: [i64; 32],
    pub targets: i64,
    pub prediction: i64,
}

impl Clone for NormCompanyPriceDataBatch {
    fn clone(&self) -> (r: Self)
        ensures
            r == *self,
    {
        NormCompanyPriceDataBatch {
            company: self.company.clone(),
            data: self.data,
            targets: self.targets,
            prediction: self.prediction,
        }
    }
}

impl NormCompanyPriceDataBatch {
    /// The batch of `company` for the normalized window `data`, not yet
    /// predicted: the prediction starts at the target, so that the two differ
    /// by nothing.
    pub fn new(company: Company, data: [i64; 32], targets: i64) -> (r: Self)
        ensures
            r == (NormCompanyPriceDataBatch { company, data, targets, prediction: targets }),
    {
        NormCompanyPriceDataBatch { company, data, targets, prediction: targets }
    }

    /// The predicted value less the target, both normalized.
    pub open spec fn delta(self) -> int {
        self.prediction - self.targets
    }

    /// The predicted value less the target, both normalized. A lower value is
    /// a better reason to buy.
    pub fn norm_delta(&self) -> (r: i128)
        ensures
            r == self.delta(),
    {
        self.prediction as i128 - self.targets as i128
    }
}

} // verus!
