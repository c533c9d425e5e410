//! Feature windows: `WIDTH` consecutive closing prices with a target, their
//! normalization by the window's own extremes, and the training set cut from
//! whole price histories.

use crate::error::Fault;
use crate::fixed_point::{
    lemma_product_fits,
    lemma_round_trip,
    lemma_scaled_in_unit_range,
    normalize_value,
    scaled,
    unscaled,
    NORM_SCALE,
};
use crate::price_data::{CompaniesPriceData, CompanyPriceData, PriceDataItem};
use vstd::prelude::*;

verus! {

/// Number of closing prices in a training window.
pub const CHUNK_SIZE: usize = 32;

/// A window of closing prices, oldest first, and the price it is to predict.
#[derive(Clone, Copy, Debug)]
pub struct BurnPriceDataItem {
    pub data: [u64; 32],
    pub target: u64,
}

/// A window rescaled by its own least and greatest price, which it keeps so
/// that the scaling can be undone. The values of the window lie between 0 and
/// `NORM_SCALE`; the target may lie outside.
#[derive(Clone, Copy, Debug)]
pub struct NormBurnPriceDataItem {
    pub data: [i64; 32],
    pub target: i128,
    pub min: u64,
    pub max: u64,
}

/// The least of the first `n` values of `data`.
pub open spec fn least(data: Seq<u64>, n: int) -> int
    decreases n,
{
    if n <= 1 {
        data[0] as int
    } else if (data[n - 1] as int) < least(data, n - 1) {
        data[n - 1] as int
    } else {
        least(data, n - 1)
    }
}

/// The greatest of the first `n` values of `data`.
pub open spec fn greatest(data: Seq<u64>, n: int) -> int
    decreases n,
{
    if n <= 1 {
        data[0] as int
    } else if (data[n - 1] as int) > greatest(data, n - 1) {
        data[n - 1] as int
    } else {
        greatest(data, n - 1)
    }
}

/// Whether all values of `data` are the same.
pub open spec fn is_flat(data: Seq<u64>) -> bool {
    forall|i: int, j: int| 0 <= i < data.len() && 0 <= j < data.len() ==> data[i] == data[j]
}

/// `least` and `greatest` are values of the sequence that bound all of its
/// first `n` values.
pub proof fn lemma_extremes(data: Seq<u64>, n: int)
    requires
        1 <= n <= data.len(),
    ensures
        forall|i: int| 0 <= i < n ==> least(data, n) <= #[trigger] data[i] <= greatest(data, n),
        exists|i: int| 0 <= i < n && data[i] == least(data, n),
        exists|i: int| 0 <= i < n && data[i] == greatest(data, n),
    decreases n,
{
    if n > 1 {
        lemma_extremes(data, n - 1);
        let i = choose|i: int| 0 <= i < n - 1 && data[i] == least(data, n - 1);
        let j = choose|j: int| 0 <= j < n - 1 && data[j] == greatest(data, n - 1);
        if (data[n - 1] as int) < least(data, n - 1) {
            assert(data[n - 1] == least(data, n));
        } else {
            assert(data[i] == least(data, n));
        }
        if (data[n - 1] as int) > greatest(data, n - 1) {
            assert(data[n - 1] == greatest(data, n));
        } else {
            assert(data[j] == greatest(data, n));
        }
    } else {
        assert(data[0] == least(data, n));
        assert(data[0] == greatest(data, n));
    }
}

/// A sequence is flat exactly where its least and greatest value agree.
pub proof fn lemma_flat_extremes(data: Seq<u64>)
    requires
        data.len() >= 1,
    ensures
        is_flat(data) <==> least(data, data.len() as int) == greatest(data, data.len() as int),
{
    lemma_extremes(data, data.len() as int);
    let n = data.len() as int;
    if least(data, n) == greatest(data, n) {
        assert forall|i: int, j: int| 0 <= i < n && 0 <= j < n implies data[i] == data[j] by {
            assert(least(data, n) <= data[i] <= greatest(data, n));
            assert(least(data, n) <= data[j] <= greatest(data, n));
        }
    }
}

/// Every value of a normalized window lies between 0 and `NORM_SCALE`, and
/// scaled back by the extremes that the window keeps it is the value it came
/// from, short by at most one tick more than the window's range holds whole
/// units of the scale. The same holds of the target scaled back.
pub proof fn lemma_normalized_round_trip(
    item: NormBurnPriceDataItem,
    data: Seq<u64>,
    target: u64,
    i: int,
)
    requires
        item.is_normalized(data, target),
        0 <= i < 32,
    ensures
        0 <= item.data@[i] <= NORM_SCALE,
        unscaled(item.data@[i] as int, item.min as int, item.max as int) <= data[i],
        data[i] <= unscaled(item.data@[i] as int, item.min as int, item.max as int) + (item.max
            - item.min) / (NORM_SCALE as int) + 1,
        unscaled(item.target as int, item.min as int, item.max as int) <= target,
        target <= unscaled(item.target as int, item.min as int, item.max as int) + (item.max
            - item.min) / (NORM_SCALE as int) + 1,
{
    lemma_extremes(data, 32);
    lemma_scaled_in_unit_range(data[i] as int, item.min as int, item.max as int);
    lemma_round_trip(data[i] as int, item.min as int, item.max as int);
    lemma_round_trip(target as int, item.min as int, item.max as int);
}

impl NormBurnPriceDataItem {
    /// Whether this is the window `data` with the target `target`, rescaled by
    /// the least and greatest value of `data`.
    pub open spec fn is_normalized(self, data: Seq<u64>, target: u64) -> bool {
        &&& data.len() == 32
        &&& self.min == least(data, 32)
        &&& self.max == greatest(data, 32)
        &&& self.min < self.max
        &&& forall|i: int|
            0 <= i < 32 ==> #[trigger] self.data@[i] == scaled(
                data[i] as int,
                self.min as int,
                self.max as int,
            )
        &&& self.target == scaled(target as int, self.min as int, self.max as int)
    }

    /// A normalized window from its parts. The window must hold exactly 32
    /// values.
    pub fn from_data_vec(data: Vec<i64>, target: i128, min: u64, max: u64) -> (r: Result<
        NormBurnPriceDataItem,
        (),
    >)
        ensures
            r is Ok <==> data.len() == 32,
            r matches Ok(item) ==> item.data@ == data@ && item.target == target && item.min == min
                && item.max == max,
    {
        if data.len() != 32 {
            return Err(());
        }
        let mut data_array: [i64; 32] = [0; 32];
        let mut i: usize = 0;
        while i < 32
            invariant
                i <= 32,
                data.len() == 32,
                forall|j: int| 0 <= j < i ==> data_array@[j] == data@[j],
            decreases 32 - i,
        {
            data_array[i] = data[i];
            i += 1;
        }
        assert(data_array@ =~= data@);
        Ok(NormBurnPriceDataItem { data: data_array, target, min, max })
    }
}

impl BurnPriceDataItem {
    /// A window from its values and its target. The window must hold exactly
    /// 32 values.
    pub fn from_data_vec(data: Vec<u64>, target: u64) -> (r: Result<BurnPriceDataItem, Fault>)
        ensures
            r is Ok <==> data.len() == 32,
            r matches Ok(item) ==> item.data@ == data@ && item.target == target,
            r matches Err(fault) ==> fault == Fault::MalformedWindow,
    {
        if data.len() != 32 {
            return Err(Fault::MalformedWindow);
        }
        let mut data_array: [u64; 32] = [0; 32];
        let mut i: usize = 0;
        while i < 32
            invariant
                i <= 32,
                data.len() == 32,
                forall|j: int| 0 <= j < i ==> data_array@[j] == data@[j],
            decreases 32 - i,
        {
            data_array[i] = data[i];
            i += 1;
        }
        assert(data_array@ =~= data@);
        Ok(BurnPriceDataItem { data: data_array, target })
    }

    /// The window rescaled so that its least price becomes 0 and its greatest
    /// `NORM_SCALE`, with the target rescaled alike. A flat window has no
    /// scale and gives nothing.
    pub fn normalize(&self) -> (r: Option<NormBurnPriceDataItem>)
        ensures
            r is None <==> is_flat(self.data@),
            r matches Some(item) ==> item.is_normalized(self.data@, self.target),
    {
        let mut min: u64 = self.data[0];
        let mut max: u64 = self.data[0];
        let mut n: usize = 1;
        while n < 32
            invariant
                1 <= n <= 32,
                min == least(self.data@, n as int),
                max == greatest(self.data@, n as int),
            decreases 32 - n,
        {
            if self.data[n] < min {
                min = self.data[n];
            }
            if self.data[n] > max {
                max = self.data[n];
            }
            n += 1;
        }
        proof {
            lemma_flat_extremes(self.data@);
            lemma_extremes(self.data@, 32);
        }
        if max == min {
            return None;
        }
        let mut new_data: [i64; 32] = [0; 32];
        let mut i: usize = 0;
        while i < 32
            invariant
                i <= 32,
                min < max,
                forall|j: int| 0 <= j < 32 ==> min <= #[trigger] self.data@[j] <= max,
                forall|j: int|
                    0 <= j < i ==> #[trigger] new_data@[j] == scaled(
                        self.data@[j] as int,
                        min as int,
                        max as int,
                    ),
            decreases 32 - i,
        {
            proof {
                lemma_scaled_in_unit_range(self.data@[i as int] as int, min as int, max as int);
            }
            new_data[i] = normalize_value(self.data[i], min, max) as i64;
            i += 1;
        }
        let target = normalize_value(self.target, min, max);
        Some(NormBurnPriceDataItem { data: new_data, target, min, max })
    }
}

/// The closing prices of the 32 rows from index `start` on.
pub open spec fn window_at(rows: Seq<PriceDataItem>, start: int) -> Seq<u64> {
    Seq::new(32, |j: int| rows[start + j].close)
}

/// Number of training windows in a history of `len` rows: one for each start
/// that leaves room for the window and, `prediction_interval` rows after it,
/// the target.
pub open spec fn window_count(len: int, prediction_interval: int) -> int {
    if len < 32 + prediction_interval + 1 {
        0
    } else {
        len - 32 - prediction_interval
    }
}

/// The windows of one history that start before index `n` and are not flat,
/// each with its target, in the order of their starts.
pub open spec fn company_windows(rows: Seq<PriceDataItem>, prediction_interval: int, n: int) -> Seq<
    (Seq<u64>, u64),
>
    decreases n,
{
    if n <= 0 {
        Seq::empty()
    } else {
        let before = company_windows(rows, prediction_interval, n - 1);
        let window = window_at(rows, n - 1);
        if is_flat(window) {
            before
        } else {
            before.push((window, rows[n - 1 + 32 + prediction_interval].close))
        }
    }
}

/// The windows of the first `n` companies, company after company.
pub open spec fn training_windows(
    companies: Seq<CompanyPriceData>,
    prediction_interval: int,
    n: int,
) -> Seq<(Seq<u64>, u64)>
    decreases n,
{
    if n <= 0 {
        Seq::empty()
    } else {
        let rows = companies[n - 1].price_data@;
        training_windows(companies, prediction_interval, n - 1) + company_windows(
            rows,
            prediction_interval,
            window_count(rows.len() as int, prediction_interval),
        )
    }
}

/// Whether `items` are the windows `raw`, each normalized.
pub open spec fn normalized_all(items: Seq<NormBurnPriceDataItem>, raw: Seq<(Seq<u64>, u64)>) -> bool {
    &&& items.len() == raw.len()
    &&& forall|k: int|
        0 <= k < items.len() ==> (#[trigger] items[k]).is_normalized(raw[k].0, raw[k].1)
}

/// Index at which a set of `len` samples is cut: the share `split_val` of
/// them, in fixed point, rounded down, and never more than all.
pub open spec fn split_point(len: int, split_val: int) -> int {
    let cut = len * split_val / (NORM_SCALE as int);
    if cut > len {
        len
    } else {
        cut
    }
}

/// A history whose closing prices are all the same has no training window.
pub proof fn lemma_flat_history_has_no_window(
    rows: Seq<PriceDataItem>,
    prediction_interval: int,
    n: int,
)
    requires
        0 <= prediction_interval,
        n <= window_count(rows.len() as int, prediction_interval),
        forall|i: int, j: int|
            0 <= i < rows.len() && 0 <= j < rows.len() ==> rows[i].close == rows[j].close,
    ensures
        company_windows(rows, prediction_interval, n).len() == 0,
    decreases n,
{
    if n > 0 {
        lemma_flat_history_has_no_window(rows, prediction_interval, n - 1);
        let window = window_at(rows, n - 1);
        assert forall|i: int, j: int|
            0 <= i < window.len() && 0 <= j < window.len() implies window[i] == window[j] by {
            assert(window[i] == rows[n - 1 + i].close);
            assert(window[j] == rows[n - 1 + j].close);
        }
    }
}

/// Normalized windows, held in the order in which they were cut.
#[derive(Debug)]
pub struct TrainPriceDataSet {
    pub dataset: Vec<NormBurnPriceDataItem>,
}

impl TrainPriceDataSet {
    /// The sample at `idx`, if there is one.
    pub fn get(&self, idx: usize) -> (r: Option<NormBurnPriceDataItem>)
        ensures
            r is Some <==> idx < self.dataset.len(),
            r matches Some(item) ==> item == self.dataset@[idx as int],
    {
        if idx < self.dataset.len() {
            Some(self.dataset[idx])
        } else {
            None
        }
    }

    /// Number of samples.
    pub fn len(&self) -> (r: usize)
        ensures
            r == self.dataset.len(),
    {
        self.dataset.len()
    }

    /// The training set and the validation set of `companies`: the windows of
    /// all companies in order, cut in two at `split_point`.
    pub fn new(companies: &CompaniesPriceData, prediction_interval: usize, split_val: u64) -> (r: (
        Self,
        Self,
    ))
        ensures
            normalized_all(
                r.0.dataset@ + r.1.dataset@,
                training_windows(
                    companies.companies@,
                    prediction_interval as int,
                    companies.companies.len() as int,
                ),
            ),
            r.0.dataset.len() == split_point(
                (r.0.dataset.len() + r.1.dataset.len()) as int,
                split_val as int,
            ),
    {
        let items = TrainPriceDataSet::chunk(companies, prediction_interval);
        proof {
            lemma_product_fits(items.len() as int, split_val as int);
        }
        let cut: u128 = (items.len() as u128) * (split_val as u128) / (NORM_SCALE as u128);
        let split: usize = if cut > items.len() as u128 {
            items.len()
        } else {
            cut as usize
        };
        let mut train_dataset: Vec<NormBurnPriceDataItem> = Vec::new();
        let mut test_dataset: Vec<NormBurnPriceDataItem> = Vec::new();
        let mut i: usize = 0;
        while i < items.len()
            invariant
                i <= items.len(),
                split <= items.len(),
                i <= split ==> train_dataset@ == items@.subrange(0, i as int) && test_dataset@.len()
                    == 0,
                i > split ==> train_dataset@ == items@.subrange(0, split as int) && test_dataset@
                    == items@.subrange(split as int, i as int),
            decreases items.len() - i,
        {
            if i < split {
                train_dataset.push(items[i]);
                assert(train_dataset@ =~= items@.subrange(0, i as int + 1));
            } else {
                test_dataset.push(items[i]);
                assert(test_dataset@ =~= items@.subrange(split as int, i as int + 1));
                assert(train_dataset@ =~= items@.subrange(0, split as int));
            }
            i += 1;
        }
        assert(train_dataset@ + test_dataset@ =~= items@);
        (TrainPriceDataSet { dataset: train_dataset }, TrainPriceDataSet { dataset: test_dataset })
    }

    /// The windows of all companies in order, each normalized, without the
    /// flat ones.
    pub fn chunk(companies: &CompaniesPriceData, prediction_interval: usize) -> (items: Vec<
        NormBurnPriceDataItem,
    >)
        ensures
            normalized_all(
                items@,
                training_windows(
                    companies.companies@,
                    prediction_interval as int,
                    companies.companies.len() as int,
                ),
            ),
    {
        let mut items: Vec<NormBurnPriceDataItem> = Vec::new();
        let ghost interval = prediction_interval as int;
        let mut n: usize = 0;
        while n < companies.companies.len()
            invariant
                n <= companies.companies.len(),
                interval == prediction_interval,
                normalized_all(items@, training_windows(companies.companies@, interval, n as int)),
            decreases companies.companies.len() - n,
        {
            let company = &companies.companies[n];
            let len = company.price_data.len();
            let ghost rows = company.price_data@;
            let ghost before = training_windows(companies.companies@, interval, n as int);
            if len > CHUNK_SIZE && len - CHUNK_SIZE > prediction_interval {
                let count = len - CHUNK_SIZE - prediction_interval;
                let mut i: usize = 0;
                while i < count
                    invariant
                        i <= count,
                        count == window_count(rows.len() as int, interval),
                        count + 32 + interval == len,
                        len == rows.len(),
                        rows == company.price_data@,
                        interval == prediction_interval,
                        normalized_all(items@, before + company_windows(rows, interval, i as int)),
                    decreases count - i,
                {
                    let ghost done = company_windows(rows, interval, i as int);
                    let mut data: Vec<u64> = Vec::new();
                    let mut j: usize = 0;
                    while j < CHUNK_SIZE
                        invariant
                            j <= 32,
                            i + 32 < len,
                            len == company.price_data.len(),
                            rows == company.price_data@,
                            data.len() == j,
                            forall|k: int| 0 <= k < j ==> data@[k] == rows[i + k].close,
                        decreases 32 - j,
                    {
                        data.push(company.price_data[i + j].close);
                        j += 1;
                    }
                    assert(data@ =~= window_at(rows, i as int));
                    let target = company.price_data[i + CHUNK_SIZE + prediction_interval].close;
                    match BurnPriceDataItem::from_data_vec(data, target) {
                        Ok(item) => {
                            match item.normalize() {
                                Some(norm_data) => {
                                    items.push(norm_data);
                                    assert(before + done.push((window_at(rows, i as int), target))
                                        =~= (before + done).push(
                                        (window_at(rows, i as int), target),
                                    ));
                                },
                                None => {},
                            }
                        },
                        Err(_) => {},
                    }
                    i += 1;
                }
            } else {
                assert(before + company_windows(rows, interval, 0) =~= before);
            }
            n += 1;
        }
        items
    }
}

/// How a training set is cut into a training part and a validation part.
#[derive(Clone, Copy, Debug)]
pub struct TrainPriceDataSetConfig {
    split_val: u64,
}

impl TrainPriceDataSetConfig {
    /// `split_val` is the share of the samples that goes to training, in
    /// fixed point: `NORM_SCALE` stands for all of them.
    pub fn new(split_val: u64) -> (r: Self)
        ensures
            r.split_val() == split_val,
    {
        Self { split_val }
    }

    /// The share of the samples that goes to training.
    pub closed spec fn split_val(self) -> u64 {
        self.split_val
    }

    /// The training set and the validation set of `companies`.
    pub fn init(&self, companies: &CompaniesPriceData, prediction_interval: usize) -> (r: (
        TrainPriceDataSet,
        TrainPriceDataSet,
    ))
        ensures
            normalized_all(
                r.0.dataset@ + r.1.dataset@,
                training_windows(
                    companies.companies@,
                    prediction_interval as int,
                    companies.companies.len() as int,
                ),
            ),
            r.0.dataset.len() == split_point(
                (r.0.dataset.len() + r.1.dataset.len()) as int,
                self.split_val() as int,
            ),
    {
        TrainPriceDataSet::new(companies, prediction_interval, self.split_val)
    }
}

} // verus!
