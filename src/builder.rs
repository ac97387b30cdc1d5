//! The staged builder of a model. Its type records whether training data and
//! parameters were added: validation data can only follow training data, and `fit`
//! exists only once both are there.
use vstd::prelude::*;
use crate::booster::Booster;
use crate::dataset::{DataSet, FormatView};
use crate::error::{ErrorKind, LgbmError};
use crate::fit::{wf, FitSession, Stage};
use crate::params::{budget_of, num_iterations, params_text, parse_params, Params};

verus! {

/// Builder state: training data was added.
#[derive(Debug)]
pub struct TrainDataAdded<T>(DataSet<T>);

/// Builder state: no training data yet.
#[derive(Debug)]
pub struct TrainDataMissing;

/// Builder state: parameters were added, as the engine's configuration string and the
/// iteration budget.
#[derive(Debug)]
pub struct ParamsAdded(String, i32);

/// Builder state: no parameters yet.
#[derive(Debug)]
pub struct ParamsMissing;

/// A builder state that can be copied, with its mathematical value.
pub trait BuildState: View + Sized {
    /// An independent copy.
    fn copy_state(&self) -> (r: Self)
        ensures
            r@ == self@;
}

impl<T> View for TrainDataAdded<T> {
    type V = (FormatView<T>, Seq<char>);

    closed spec fn view(&self) -> (FormatView<T>, Seq<char>) {
        self.0@
    }
}

impl View for TrainDataMissing {
    type V = ();

    open spec fn view(&self) -> () {
        ()
    }
}

impl View for ParamsAdded {
    type V = (Seq<char>, i32);

    closed spec fn view(&self) -> (Seq<char>, i32) {
        (self.0@, self.1)
    }
}

impl View for ParamsMissing {
    type V = ();

    open spec fn view(&self) -> () {
        ()
    }
}

impl<T: Copy> BuildState for TrainDataAdded<T> {
    fn copy_state(&self) -> (r: Self) {
        TrainDataAdded(self.0.copy())
    }
}

impl BuildState for TrainDataMissing {
    fn copy_state(&self) -> (r: Self) {
        TrainDataMissing
    }
}

impl BuildState for ParamsAdded {
    fn copy_state(&self) -> (r: Self) {
        ParamsAdded(self.0.clone(), self.1)
    }
}

impl BuildState for ParamsMissing {
    fn copy_state(&self) -> (r: Self) {
        ParamsMissing
    }
}

/// The value of a builder: its training-data state, its validation datasets in the order
/// they were added, and its parameter state.
pub struct BuilderView<D, P, T> {
    pub train: D,
    pub val: Seq<(FormatView<T>, Seq<char>)>,
    pub params: P,
}

/// The builder of a `Booster`; `T` is the type of the values in its datasets.
#[derive(Debug)]
pub struct BoosterBuilder<T, D, P> {
    train_data: D,
    val_data: Vec<DataSet<T>>,
    params: P,
}

impl<T, D: View, P: View> View for BoosterBuilder<T, D, P> {
    type V = BuilderView<D::V, P::V, T>;

    closed spec fn view(&self) -> BuilderView<D::V, P::V, T> {
        BuilderView {
            train: self.train_data@,
            val: self.val_data@.map_values(|d: DataSet<T>| d@),
            params: self.params@,
        }
    }
}

/// The parameter state that a parameter map gives, if it has a valid iteration budget.
pub open spec fn params_state(entries: Seq<(Seq<char>, crate::params::ParamView)>) -> Option<(Seq<char>, i32)> {
    match budget_of(entries) {
        Some(n) => Some((params_text(entries), n)),
        None => None,
    }
}

impl Booster {
    /// A builder with neither training data nor parameters.
    pub fn builder<T>() -> (r: BoosterBuilder<T, TrainDataMissing, ParamsMissing>)
        ensures
            r@.val.len() == 0,
    {
        let r = BoosterBuilder { train_data: TrainDataMissing, val_data: Vec::new(), params: ParamsMissing };
        assert(r@.val =~= Seq::<(FormatView<T>, Seq<char>)>::empty());
        r
    }
}

impl<T: Copy, D: BuildState, P: BuildState> BoosterBuilder<T, D, P> {
    /// The builder and an independent copy of it, so that two models can be built from a
    /// shared beginning. Dataset descriptions are copied; nothing is loaded yet.
    pub fn duplicate(self) -> (r: (Self, Self))
        ensures
            r.0@ == self@,
            r.1@ == self@,
    {
        let mut val_data: Vec<DataSet<T>> = Vec::new();
        let mut i: usize = 0;
        while i < self.val_data.len()
            invariant
                i <= self.val_data@.len(),
                val_data@.map_values(|d: DataSet<T>| d@) == self.val_data@.map_values(|d: DataSet<T>| d@).take(i as int),
            decreases self.val_data@.len() - i,
        {
            let ghost before = val_data@;
            val_data.push(self.val_data[i].copy());
            proof {
                assert(val_data@.map_values(|d: DataSet<T>| d@) =~= before.map_values(|d: DataSet<T>| d@).push(self.val_data@[i as int]@));
                assert(self.val_data@.map_values(|d: DataSet<T>| d@).take(i + 1) =~= self.val_data@.map_values(|d: DataSet<T>| d@).take(i as int).push(self.val_data@[i as int]@));
            }
            i += 1;
        }
        proof {
            assert(self.val_data@.map_values(|d: DataSet<T>| d@).take(i as int) =~= self.val_data@.map_values(|d: DataSet<T>| d@));
        }
        let copy = BoosterBuilder { train_data: self.train_data.copy_state(), val_data, params: self.params.copy_state() };
        (copy, self)
    }
}

impl<T, D: View> BoosterBuilder<T, D, ParamsMissing> {
    /// Adds the training parameters: the map is serialised into the engine's configuration
    /// string and its iteration budget is taken out. A `Configuration` error when the
    /// budget is missing or not an integer.
    pub fn add_params(self, params: Params) -> (r: Result<BoosterBuilder<T, D, ParamsAdded>, LgbmError>)
        requires
            params.wf(),
        ensures
            r is Ok <==> params_state(params@) is Some,
            r matches Ok(b) ==> b@.train == self@.train && b@.val == self@.val && b@.params == params_state(params@)->Some_0,
            r matches Err(e) ==> e.kind == ErrorKind::Configuration,
    {
        let n = match num_iterations(&params) {
            Ok(n) => n,
            Err(e) => return Err(e),
        };
        let text = match parse_params(&params) {
            Ok(t) => t,
            Err(e) => return Err(e),
        };
        Ok(BoosterBuilder { train_data: self.train_data, val_data: self.val_data, params: ParamsAdded(text, n) })
    }
}

impl<T, P: View> BoosterBuilder<T, TrainDataMissing, P> {
    /// Adds the training data. It is loaded only when the model is fitted.
    pub fn add_train_data(self, train: DataSet<T>) -> (r: BoosterBuilder<T, TrainDataAdded<T>, P>)
        ensures
            r@.train == train@,
            r@.val == self@.val,
            r@.params == self@.params,
    {
        BoosterBuilder { train_data: TrainDataAdded(train), val_data: self.val_data, params: self.params }
    }
}

impl<T, P: View> BoosterBuilder<T, TrainDataAdded<T>, P> {
    /// Adds a validation dataset, after those already added. It will be loaded relative to
    /// the training dataset, so that both share feature bins.
    pub fn add_val_data(self, val: DataSet<T>) -> (r: Self)
        ensures
            r@.train == self@.train,
            r@.val == self@.val.push(val@),
            r@.params == self@.params,
    {
        let mut b = self;
        let ghost before = b.val_data@;
        b.val_data.push(val);
        proof {
            assert(b.val_data@.map_values(|d: DataSet<T>| d@) =~= before.map_values(|d: DataSet<T>| d@).push(val@));
        }
        b
    }
}

impl<T: Copy> BoosterBuilder<T, TrainDataAdded<T>, ParamsAdded> {
    /// Begins fitting the model: a session that loads the training dataset, creates the
    /// model, loads and attaches the validation datasets in the order they were added, and
    /// trains for the iteration budget, each native call made by the caller.
    pub fn fit(self) -> (r: FitSession<T>)
        ensures
            r@.stage == Stage::LoadTrain,
            r@.train_data == self@.train,
            r@.val_data == self@.val,
            r@.params == self@.params.0,
            r@.budget == self@.params.1,
            wf(r@),
    {
        let ParamsAdded(text, budget) = self.params;
        let TrainDataAdded(train) = self.train_data;
        FitSession::new(train, self.val_data, text, budget)
    }
}

/// Two halves of a duplicated builder that are given parameters independently share their
/// training and validation data, and differ in their configuration exactly where the two
/// parameter maps serialise differently.
pub proof fn lemma_duplicate_then_params<D, P, T>(
    b: BuilderView<D, P, T>,
    first: Seq<(Seq<char>, crate::params::ParamView)>,
    second: Seq<(Seq<char>, crate::params::ParamView)>,
    x: BuilderView<D, (Seq<char>, i32), T>,
    y: BuilderView<D, (Seq<char>, i32), T>,
)
    requires
        params_state(first) is Some,
        params_state(second) is Some,
        x.train == b.train && x.val == b.val && x.params == params_state(first)->Some_0,
        y.train == b.train && y.val == b.val && y.params == params_state(second)->Some_0,
    ensures
        x.train == y.train,
        x.val == y.val,
        x.params.0 == y.params.0 <==> params_text(first) == params_text(second),
        x.params.1 == y.params.1 <==> budget_of(first) == budget_of(second),
{
}

} // verus!
