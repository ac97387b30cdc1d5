//! The trained model: the handles it owns, the order in which they are released, and
//! the checks and shaping around prediction and evaluation retrieval.
use vstd::prelude::*;
use vstd::utf8::{decode_utf8, valid_utf8};
use crate::error::{ErrorKind, LgbmError};
use crate::params::int_to_text;
use crate::matrix::{
    check_dimensions, flat, flatten, fits_native, is_well_formed, matrix_shape, reshape, reshaped, rows_of,
};

verus! {

/// A dataset that the native engine has loaded; `handle` is the engine's reference to it,
/// never null. The model that owns it releases it.
#[derive(Debug)]
pub struct LoadedDataSet {
    handle: usize,
}

impl View for LoadedDataSet {
    type V = usize;

    closed spec fn view(&self) -> usize {
        self.handle
    }
}

impl LoadedDataSet {
    pub(crate) fn new(handle: usize) -> (r: LoadedDataSet)
        ensures
            r@ == handle,
    {
        LoadedDataSet { handle }
    }

    /// The engine's reference to the dataset.
    pub fn handle(&self) -> (r: usize)
        ensures
            r == self@,
    {
        self.handle
    }
}

/// The handles of a model: its own, that of its training dataset, and those of its
/// validation datasets in the order they were added.
pub struct BoosterView {
    pub handle: usize,
    pub train: usize,
    pub validation: Seq<usize>,
}

/// The value of an optional handle as a sequence of zero or one handles.
pub open spec fn opt_seq(h: Option<usize>) -> Seq<usize> {
    match h {
        Some(x) => seq![x],
        None => Seq::empty(),
    }
}

/// The order in which handles are released: the model first, then a dataset that was
/// being attached, then the validation datasets from the last added to the first, then
/// the training dataset, which the others reference.
pub open spec fn release_order(
    booster: Option<usize>,
    current: Option<usize>,
    validation: Seq<usize>,
    train: Option<usize>,
) -> Seq<usize> {
    opt_seq(booster) + opt_seq(current) + validation.reverse() + opt_seq(train)
}

/// A trained model. It owns the native model handle and keeps the loaded training and
/// validation datasets alive, since evaluation reads them.
#[derive(Debug)]
pub struct Booster {
    handle: usize,
    train_data: LoadedDataSet,
    validation_data: Vec<LoadedDataSet>,
}

impl View for Booster {
    type V = BoosterView;

    closed spec fn view(&self) -> BoosterView {
        BoosterView {
            handle: self.handle,
            train: self.train_data@,
            validation: self.validation_data@.map_values(|d: LoadedDataSet| d@),
        }
    }
}

/// The metric name and score of one evaluation metric on one dataset.
#[derive(Debug)]
pub struct EvalResult<S> {
    pub metric_name: String,
    pub score: S,
}

/// A name buffer of `width` zero bytes.
pub open spec fn zeros(width: nat) -> Seq<u8> {
    Seq::new(width, |i: int| 0u8)
}

/// The bytes before the first zero byte of `b`, if it has one.
pub open spec fn before_nul(b: Seq<u8>) -> Option<Seq<u8>> {
    if exists|i: int| 0 <= i < b.len() && b[i] == 0 {
        let p = choose|p: int| 0 <= p < b.len() && b[p] == 0 && forall|k: int| 0 <= k < p ==> b[k] != 0;
        Some(b.take(p))
    } else {
        None
    }
}

/// Relies on `String::from_utf8`: it succeeds exactly when the bytes are valid UTF-8,
/// and the text holds the characters they encode.
#[verifier::external_body]
fn utf8_decode(b: Vec<u8>) -> (r: Option<String>)
    ensures
        r is Some <==> valid_utf8(b@),
        r matches Some(s) ==> s@ == decode_utf8(b@),
{
    String::from_utf8(b).ok()
}

impl Booster {
    pub(crate) fn new(handle: usize, train_data: LoadedDataSet, validation_data: Vec<LoadedDataSet>) -> (r: Booster)
        ensures
            r@ == (BoosterView {
                handle,
                train: train_data@,
                validation: validation_data@.map_values(|d: LoadedDataSet| d@),
            }),
    {
        Booster { handle, train_data, validation_data }
    }

    /// The native model handle.
    pub fn handle(&self) -> (r: usize)
        ensures
            r == self@.handle,
    {
        self.handle
    }

    /// The number of validation datasets.
    pub fn num_validation_sets(&self) -> (r: usize)
        ensures
            r == self@.validation.len(),
    {
        self.validation_data.len()
    }

    /// Checks a dataset index for evaluation lookup: 0 is the training dataset and 1 to N
    /// the validation datasets in the order they were added. Any other index is a `Range`
    /// error, found before any native call.
    pub fn check_dataset_index(&self, dataset_index: i32) -> (r: Result<i32, LgbmError>)
        ensures
            r is Ok <==> 0 <= dataset_index <= self@.validation.len(),
            r matches Ok(i) ==> i == dataset_index,
            r matches Err(e) ==> e.kind == ErrorKind::Range,
    {
        if dataset_index < 0 || dataset_index as usize > self.validation_data.len() {
            let mut desc = String::from_str("Invalid Dataset Index. Given: ");
            desc.append(int_to_text(dataset_index as i64).as_str());
            desc.append(" Max Allowed: ");
            desc.append(int_to_text(self.validation_data.len() as i64).as_str());
            return Err(LgbmError::new(ErrorKind::Range, desc));
        }
        Ok(dataset_index)
    }

    /// Takes the model apart into the handles to release, in the order they must be
    /// released: the model handle first, then the validation datasets from the last added
    /// to the first, then the training dataset.
    pub fn into_release_order(self) -> (r: Vec<usize>)
        ensures
            r@ == release_order(Some(self@.handle), None, self@.validation, Some(self@.train)),
    {
        let ghost v = self@;
        let mut out: Vec<usize> = Vec::new();
        out.push(self.handle);
        let mut i: usize = self.validation_data.len();
        while i > 0
            invariant
                i <= self.validation_data@.len(),
                v == self@,
                out@ == seq![v.handle] + v.validation.skip(i as int).reverse(),
            decreases i,
        {
            i -= 1;
            out.push(self.validation_data[i].handle());
            proof {
                assert(v.validation[i as int] == self.validation_data@[i as int]@);
                assert(v.validation.skip(i as int) =~= seq![v.validation[i as int]] + v.validation.skip(i + 1));
                assert(v.validation.skip(i as int).reverse() =~= v.validation.skip(i + 1).reverse().push(v.validation[i as int]));
            }
        }
        out.push(self.train_data.handle());
        proof {
            assert(v.validation.skip(0) =~= v.validation);
            assert(out@ =~= release_order(Some(v.handle), None, v.validation, Some(v.train)));
        }
        out
    }
}

/// Checks the number of metric names that the engine reported against its metric count;
/// a mismatch, or a negative count, is a `Protocol` error.
pub fn check_eval_counts(num_names: i32, num_metrics: i32) -> (r: Result<usize, LgbmError>)
    ensures
        r is Ok <==> num_names == num_metrics && num_metrics >= 0,
        r matches Ok(n) ==> n == num_metrics,
        r matches Err(e) ==> e.kind == ErrorKind::Protocol,
{
    if num_names != num_metrics || num_metrics < 0 {
        return Err(LgbmError::new(ErrorKind::Protocol, String::from_str("the engine reported a number of metric names that differs from its metric count")));
    }
    Ok(num_metrics as usize)
}

/// `count` name buffers of `width` zero bytes each, for the engine to fill.
pub fn name_buffers(count: usize, width: usize) -> (r: Vec<Vec<u8>>)
    ensures
        r@.len() == count,
        forall|i: int| 0 <= i < count ==> #[trigger] r@[i]@ == zeros(width as nat),
{
    let mut out: Vec<Vec<u8>> = Vec::new();
    let mut i: usize = 0;
    while i < count
        invariant
            i <= count,
            out@.len() == i,
            forall|k: int| 0 <= k < i ==> #[trigger] out@[k]@ == zeros(width as nat),
        decreases count - i,
    {
        let mut buf: Vec<u8> = Vec::new();
        let mut j: usize = 0;
        while j < width
            invariant
                j <= width,
                buf@ == zeros(j as nat),
            decreases width - j,
        {
            buf.push(0u8);
            proof {
                assert(buf@ =~= zeros((j + 1) as nat));
            }
            j += 1;
        }
        out.push(buf);
        i += 1;
    }
    out
}

/// Reads a metric name that the engine wrote into a buffer: the bytes before the first
/// zero byte, as UTF-8 text. A buffer without a zero byte is a `Protocol` error, text that
/// is not UTF-8 an `Encoding` error.
pub fn decode_name(buf: &Vec<u8>) -> (r: Result<String, LgbmError>)
    ensures
        before_nul(buf@) is None ==> (r matches Err(e) && e.kind == ErrorKind::Protocol),
        before_nul(buf@) matches Some(b) ==> {
            &&& r is Ok <==> valid_utf8(b)
            &&& r matches Ok(s) ==> s@ == decode_utf8(b)
            &&& r matches Err(e) ==> e.kind == ErrorKind::Encoding
        },
{
    let mut p: usize = 0;
    while p < buf.len() && buf[p] != 0
        invariant
            p <= buf@.len(),
            forall|k: int| 0 <= k < p ==> buf@[k] != 0,
        decreases buf@.len() - p,
    {
        p += 1;
    }
    if p == buf.len() {
        return Err(LgbmError::new(ErrorKind::Protocol, String::from_str("name not terminated by a zero byte")));
    }
    proof {
        let q = choose|q: int| 0 <= q < buf@.len() && buf@[q] == 0 && forall|k: int| 0 <= k < q ==> buf@[k] != 0;
        if q < p {
        } else if q > p {
            assert(buf@[p as int] == 0);
        }
        assert(q == p);
    }
    let mut bytes: Vec<u8> = Vec::new();
    let mut k: usize = 0;
    while k < p
        invariant
            p < buf@.len(),
            k <= p,
            bytes@ == buf@.take(k as int),
        decreases p - k,
    {
        bytes.push(buf[k]);
        proof {
            assert(buf@.take(k as int).push(buf@[k as int]) =~= buf@.take(k + 1));
        }
        k += 1;
    }
    match utf8_decode(bytes) {
        Some(s) => Ok(s),
        None => Err(LgbmError::new(ErrorKind::Encoding, String::from_str("name not valid UTF-8"))),
    }
}

/// Checks the number of scores that the engine reported against the number expected; a
/// mismatch is a `Protocol` error.
pub fn check_eval_scores(out_len: i32, expected: usize) -> (r: Result<(), LgbmError>)
    ensures
        r is Ok <==> out_len as int == expected as int,
        r matches Err(e) ==> e.kind == ErrorKind::Protocol,
{
    if out_len < 0 || out_len as usize != expected {
        return Err(LgbmError::new(ErrorKind::Protocol, String::from_str("Output Array length doesn't match reported length.")));
    }
    Ok(())
}

/// Pairs each metric name with its score, in order.
pub fn zip_eval_results<S: Copy>(names: Vec<String>, scores: &Vec<S>) -> (r: Vec<EvalResult<S>>)
    requires
        names@.len() == scores@.len(),
    ensures
        r@.len() == names@.len(),
        forall|i: int| 0 <= i < r@.len() ==> #[trigger] r@[i].metric_name@ == names@[i]@ && r@[i].score == scores@[i],
{
    let mut out: Vec<EvalResult<S>> = Vec::new();
    let mut names = names;
    let ghost all = names@;
    let n = scores.len();
    let mut k: usize = 0;
    while names.len() > 0
        invariant
            n == all.len(),
            k <= all.len(),
            names@ == all.skip(k as int),
            names@.len() + k == all.len(),
            all.len() == scores@.len(),
            out@.len() == k,
            forall|j: int| 0 <= j < k ==> #[trigger] out@[j].metric_name@ == all[j]@ && out@[j].score == scores@[j],
        decreases names@.len(),
    {
        let name = names.remove(0);
        proof {
            assert(all.skip(k as int)[0] == all[k as int]);
            assert(names@ =~= all.skip(k + 1));
        }
        out.push(EvalResult { metric_name: name, score: scores[k] });
        k += 1;
    }
    out
}

/// Checks the number of outputs per sample that the engine reported for a model; a
/// negative count is a `Protocol` error.
pub fn check_num_classes(num_classes: i32) -> (r: Result<i32, LgbmError>)
    ensures
        r is Ok <==> num_classes >= 0,
        r matches Ok(n) ==> n == num_classes,
        r matches Err(e) ==> e.kind == ErrorKind::Protocol,
{
    if num_classes > -1 {
        Ok(num_classes)
    } else {
        Err(LgbmError::new(ErrorKind::Protocol, String::from_str("lgbm didn't update the number of classes correctly.")))
    }
}

/// The length of the output buffer of a prediction: one value per sample and class. A
/// `Dimension` error when it does not fit in memory addressing.
pub fn output_len(rows: i32, num_classes: i32) -> (r: Result<usize, LgbmError>)
    requires
        rows >= 0,
        num_classes >= 0,
    ensures
        r is Ok <==> rows * num_classes <= usize::MAX,
        r matches Ok(n) ==> n == rows * num_classes,
        r matches Err(e) ==> e.kind == ErrorKind::Dimension,
{
    match (rows as usize).checked_mul(num_classes as usize) {
        Some(n) => Ok(n),
        None => Err(LgbmError::new(ErrorKind::Dimension, String::from_str("prediction output too large"))),
    }
}

/// The input of a prediction, checked and laid out row-major: the data, the row count and
/// the column count. An empty, ragged, or too large matrix is a `Dimension` error.
pub fn prediction_input<T: Copy>(x: &Vec<Vec<T>>) -> (r: Result<(Vec<T>, i32, i32), LgbmError>)
    ensures
        r is Ok <==> is_well_formed(rows_of(x@)) && fits_native(x@.len() as int, x@[0]@.len() as int),
        r matches Ok(p) ==> p.0@ == flat(rows_of(x@)) && p.1 == x@.len() && p.2 == x@[0]@.len(),
        r matches Err(e) ==> e.kind == ErrorKind::Dimension,
{
    let (rows, cols) = match matrix_shape(x) {
        Ok(p) => p,
        Err(e) => return Err(e),
    };
    let (n_rows, n_cols) = match check_dimensions(rows, cols) {
        Ok(p) => p,
        Err(e) => return Err(e),
    };
    Ok((flatten(x), n_rows, n_cols))
}

/// What reading one name buffer gives: the text before the first zero byte, or the kind
/// of error.
pub open spec fn name_outcome(b: Seq<u8>) -> Result<Seq<char>, ErrorKind> {
    match before_nul(b) {
        None => Err(ErrorKind::Protocol),
        Some(t) => if valid_utf8(t) {
            Ok(decode_utf8(t))
        } else {
            Err(ErrorKind::Encoding)
        },
    }
}

/// What reading name buffers in order gives: every name, or the error of the first
/// buffer that cannot be read.
pub open spec fn names_outcome(bs: Seq<Seq<u8>>) -> Result<Seq<Seq<char>>, ErrorKind>
    decreases bs.len(),
{
    if bs.len() == 0 {
        Ok(Seq::empty())
    } else {
        match names_outcome(bs.drop_last()) {
            Err(k) => Err(k),
            Ok(ns) => match name_outcome(bs.last()) {
                Err(k) => Err(k),
                Ok(n) => Ok(ns.push(n)),
            },
        }
    }
}

proof fn lemma_names_outcome_prefix_error(bs: Seq<Seq<u8>>, i: int, k: ErrorKind)
    requires
        0 <= i <= bs.len(),
        names_outcome(bs.take(i)) == Err::<Seq<Seq<char>>, ErrorKind>(k),
    ensures
        names_outcome(bs) == Err::<Seq<Seq<char>>, ErrorKind>(k),
    decreases bs.len(),
{
    if i < bs.len() {
        assert(bs.drop_last().take(i) =~= bs.take(i));
        lemma_names_outcome_prefix_error(bs.drop_last(), i, k);
    } else {
        assert(bs.take(i) =~= bs);
    }
}

/// The contents of name buffers.
pub open spec fn buffers_view(bs: Seq<Vec<u8>>) -> Seq<Seq<u8>> {
    bs.map_values(|b: Vec<u8>| b@)
}

/// Reads the metric names from buffers that the engine filled, in order.
pub fn decode_names(buffers: &Vec<Vec<u8>>) -> (r: Result<Vec<String>, LgbmError>)
    ensures
        r matches Ok(names) ==> names_outcome(buffers_view(buffers@)) == Ok::<Seq<Seq<char>>, ErrorKind>(
            names@.map_values(|s: String| s@),
        ),
        r matches Err(e) ==> names_outcome(buffers_view(buffers@)) == Err::<Seq<Seq<char>>, ErrorKind>(e.kind),
{
    let ghost all = buffers_view(buffers@);
    let mut names: Vec<String> = Vec::new();
    let mut i: usize = 0;
    proof {
        assert(all.take(0) =~= Seq::<Seq<u8>>::empty());
        assert(names@.map_values(|s: String| s@) =~= Seq::<Seq<char>>::empty());
    }
    while i < buffers.len()
        invariant
            i <= buffers@.len(),
            all == buffers_view(buffers@),
            names_outcome(all.take(i as int)) == Ok::<Seq<Seq<char>>, ErrorKind>(names@.map_values(|s: String| s@)),
        decreases buffers@.len() - i,
    {
        proof {
            assert(all.take(i + 1).drop_last() =~= all.take(i as int));
            assert(all.take(i + 1).last() == buffers@[i as int]@);
        }
        match decode_name(&buffers[i]) {
            Ok(name) => {
                let ghost before = names@;
                names.push(name);
                proof {
                    assert(names@.map_values(|s: String| s@) =~= before.map_values(|s: String| s@).push(name@));
                }
            },
            Err(e) => {
                proof {
                    lemma_names_outcome_prefix_error(all, i + 1, e.kind);
                }
                return Err(e);
            },
        }
        i += 1;
    }
    proof {
        assert(all.take(i as int) =~= all);
    }
    Ok(names)
}

/// An evaluation lookup whose dataset index was checked: the next step is to ask the
/// engine for its metric count and for the number and width of its metric names.
#[derive(Debug)]
pub struct EvalQuery {
    booster: usize,
    index: i32,
}

/// An evaluation lookup waiting for the engine to fill `count` name buffers.
#[derive(Debug)]
pub struct NamesPending {
    booster: usize,
    index: i32,
    count: usize,
}

/// An evaluation lookup that has its metric names and waits for the scores.
#[derive(Debug)]
pub struct ScoresPending {
    booster: usize,
    index: i32,
    names: Vec<String>,
}

impl Booster {
    /// Begins an evaluation lookup on one dataset: 0 is the training dataset, 1 to N the
    /// validation datasets in the order they were added. Any other index is a `Range`
    /// error, before any native call.
    pub fn eval_query(&self, dataset_index: i32) -> (r: Result<EvalQuery, LgbmError>)
        ensures
            r is Ok <==> 0 <= dataset_index <= self@.validation.len(),
            r matches Ok(q) ==> q.booster() == self@.handle && q.index() == dataset_index,
            r matches Err(e) ==> e.kind == ErrorKind::Range,
    {
        match self.check_dataset_index(dataset_index) {
            Ok(index) => Ok(EvalQuery { booster: self.handle, index }),
            Err(e) => Err(e),
        }
    }
}

impl EvalQuery {
    /// The model handle.
    pub closed spec fn booster(&self) -> usize {
        self.booster
    }

    /// The dataset index.
    pub closed spec fn index(&self) -> i32 {
        self.index
    }

    /// The model handle to query.
    pub fn handle(&self) -> (r: usize)
        ensures
            r == self.booster(),
    {
        self.booster
    }

    /// Takes the engine's metric count and the number and width of its metric names, and
    /// gives the zeroed buffers for it to fill. Counts that disagree are a `Protocol` error.
    pub fn name_buffers(self, num_metrics: i32, num_names: i32, width: usize) -> (r: Result<(Vec<Vec<u8>>, NamesPending), LgbmError>)
        ensures
            r is Ok <==> num_names == num_metrics && num_metrics >= 0,
            r matches Ok(p) ==> {
                &&& p.0@.len() == num_metrics
                &&& forall|i: int| 0 <= i < p.0@.len() ==> #[trigger] p.0@[i]@ == zeros(width as nat)
                &&& p.1.booster() == self.booster() && p.1.index() == self.index() && p.1.count() == num_metrics
            },
            r matches Err(e) ==> e.kind == ErrorKind::Protocol,
    {
        match check_eval_counts(num_names, num_metrics) {
            Ok(count) => {
                let buffers = name_buffers(count, width);
                Ok((buffers, NamesPending { booster: self.booster, index: self.index, count }))
            },
            Err(e) => Err(e),
        }
    }
}

impl NamesPending {
    /// The model handle.
    pub closed spec fn booster(&self) -> usize {
        self.booster
    }

    /// The dataset index.
    pub closed spec fn index(&self) -> i32 {
        self.index
    }

    /// The number of metric names expected.
    pub closed spec fn count(&self) -> nat {
        self.count as nat
    }

    /// The model handle to query.
    pub fn handle(&self) -> (r: usize)
        ensures
            r == self.booster(),
    {
        self.booster
    }

    /// Reads the names from the buffers that the engine filled. Another number of buffers
    /// than expected is a `Protocol` error; so is a buffer without a zero byte; a name that
    /// is not UTF-8 is an `Encoding` error.
    pub fn read_names(self, filled: &Vec<Vec<u8>>) -> (r: Result<ScoresPending, LgbmError>)
        ensures
            filled@.len() != self.count() ==> (r matches Err(e) && e.kind == ErrorKind::Protocol),
            filled@.len() == self.count() ==> match names_outcome(buffers_view(filled@)) {
                Ok(names) => r matches Ok(q) && q.names() == names && q.booster() == self.booster() && q.index() == self.index(),
                Err(k) => r matches Err(e) && e.kind == k,
            },
    {
        if filled.len() != self.count {
            return Err(LgbmError::new(ErrorKind::Protocol, String::from_str("the engine filled another number of name buffers")));
        }
        match decode_names(filled) {
            Ok(names) => Ok(ScoresPending { booster: self.booster, index: self.index, names }),
            Err(e) => Err(e),
        }
    }
}

impl ScoresPending {
    /// The model handle.
    pub closed spec fn booster(&self) -> usize {
        self.booster
    }

    /// The dataset index.
    pub closed spec fn index(&self) -> i32 {
        self.index
    }

    /// The metric names, in the engine's order.
    pub closed spec fn names(&self) -> Seq<Seq<char>> {
        self.names@.map_values(|s: String| s@)
    }

    /// The model handle to query.
    pub fn handle(&self) -> (r: usize)
        ensures
            r == self.booster(),
    {
        self.booster
    }

    /// The dataset index to query.
    pub fn dataset_index(&self) -> (r: i32)
        ensures
            r == self.index(),
    {
        self.index
    }

    /// The number of scores to make room for: one per metric.
    pub fn num_metrics(&self) -> (r: usize)
        ensures
            r == self.names().len(),
    {
        self.names.len()
    }

    /// Pairs each metric name with its score. The engine must report as many scores as
    /// there are names; otherwise the call is taken as failed, a `Protocol` error.
    pub fn finish<S: Copy>(self, scores: &Vec<S>, reported: i32) -> (r: Result<Vec<EvalResult<S>>, LgbmError>)
        ensures
            r is Ok <==> reported as int == self.names().len() && scores@.len() == self.names().len(),
            r matches Ok(results) ==> results@.len() == self.names().len() && forall|i: int|
                0 <= i < results@.len() ==> #[trigger] results@[i].metric_name@ == self.names()[i] && results@[i].score
                    == scores@[i],
            r matches Err(e) ==> e.kind == ErrorKind::Protocol,
    {
        let n = self.names.len();
        if let Err(e) = check_eval_scores(reported, n) {
            return Err(e);
        }
        if scores.len() != n {
            return Err(LgbmError::new(ErrorKind::Protocol, String::from_str("Output Array length doesn't match reported length.")));
        }
        let ghost names = self.names@;
        let results = zip_eval_results(self.names, scores);
        proof {
            assert forall|i: int| 0 <= i < results@.len() implies #[trigger] results@[i].metric_name@ == names.map_values(|s: String| s@)[i] by {
            }
        }
        Ok(results)
    }
}

/// A prediction whose input was checked and laid out row-major: the next step is to ask
/// the engine how many outputs per sample the model has.
#[derive(Debug)]
pub struct PredictQuery<T> {
    booster: usize,
    data: Vec<T>,
    rows: i32,
    cols: i32,
}

/// A prediction ready for the native call, with the length of its output buffer.
#[derive(Debug)]
pub struct PredictCall<T> {
    pub booster: usize,
    pub data: Vec<T>,
    pub rows: i32,
    pub cols: i32,
    pub num_classes: i32,
    pub out_len: usize,
}

impl Booster {
    /// Begins a prediction: the input must be non-empty, rectangular, and within the
    /// engine's integer width, otherwise a `Dimension` error.
    pub fn prediction<T: Copy>(&self, x: &Vec<Vec<T>>) -> (r: Result<PredictQuery<T>, LgbmError>)
        ensures
            r is Ok <==> is_well_formed(rows_of(x@)) && fits_native(x@.len() as int, x@[0]@.len() as int),
            r matches Ok(q) ==> q.booster() == self@.handle && q.data() == flat(rows_of(x@)) && q.rows() == x@.len()
                && q.cols() == x@[0]@.len(),
            r matches Err(e) ==> e.kind == ErrorKind::Dimension,
    {
        match prediction_input(x) {
            Ok((data, rows, cols)) => Ok(PredictQuery { booster: self.handle, data, rows, cols }),
            Err(e) => Err(e),
        }
    }
}

impl<T> PredictQuery<T> {
    #[verifier::type_invariant]
    spec fn rows_not_negative(&self) -> bool {
        self.rows >= 0
    }
}

impl<T: Copy> PredictQuery<T> {
    /// The model handle.
    pub closed spec fn booster(&self) -> usize {
        self.booster
    }

    /// The input, row-major.
    pub closed spec fn data(&self) -> Seq<T> {
        self.data@
    }

    /// The number of rows.
    pub closed spec fn rows(&self) -> int {
        self.rows as int
    }

    /// The number of columns.
    pub closed spec fn cols(&self) -> int {
        self.cols as int
    }

    /// The model handle to query.
    pub fn handle(&self) -> (r: usize)
        ensures
            r == self.booster(),
    {
        self.booster
    }

    /// Takes the engine's count of outputs per sample; a negative count is a `Protocol`
    /// error, an output too large to address a `Dimension` error.
    pub fn with_classes(self, num_classes: i32) -> (r: Result<PredictCall<T>, LgbmError>)
        ensures
            r is Ok <==> num_classes >= 0 && self.rows() * num_classes <= usize::MAX,
            r matches Ok(c) ==> c.booster == self.booster() && c.data@ == self.data() && c.rows == self.rows()
                && c.cols == self.cols() && c.num_classes == num_classes && c.out_len == self.rows() * num_classes,
            r matches Err(e) ==> e.kind == (if num_classes < 0 { ErrorKind::Protocol } else { ErrorKind::Dimension }),
    {
        proof {
            use_type_invariant(&self);
        }
        let n = match check_num_classes(num_classes) {
            Ok(n) => n,
            Err(e) => return Err(e),
        };
        let len = match output_len(self.rows, n) {
            Ok(len) => len,
            Err(e) => return Err(e),
        };
        Ok(PredictCall { booster: self.booster, data: self.data, rows: self.rows, cols: self.cols, num_classes: n, out_len: len })
    }
}

impl<T: Copy> PredictCall<T> {
    /// Shapes the engine's output: one row of `num_classes` values per sample for a model
    /// with more than one output, otherwise one row of all outputs. An output of another
    /// length than asked for is a `Protocol` error.
    pub fn finish(&self, out: Vec<T>) -> (r: Result<Vec<Vec<T>>, LgbmError>)
        ensures
            r is Ok <==> out@.len() == self.out_len,
            r matches Ok(m) ==> rows_of(m@) == reshaped(out@, self.num_classes as int),
            r matches Err(e) ==> e.kind == ErrorKind::Protocol,
    {
        if out.len() != self.out_len {
            return Err(LgbmError::new(ErrorKind::Protocol, String::from_str("prediction output has an unexpected length")));
        }
        Ok(reshape(out, self.num_classes))
    }
}

} // verus!
