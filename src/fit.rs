//! The fit protocol: load the training dataset, create the model, load and attach each
//! validation dataset relative to the training one, then train for the iteration budget.
//!
//! `FitSession` decides; its caller performs the native calls. Each step takes the
//! outcome of the last call and returns the next call to make. The session owns every
//! handle acquired so far; on any failure it hands all of them back for release, in an
//! order that frees no dataset before what references it.
use vstd::prelude::*;
use crate::booster::{opt_seq, release_order, Booster, LoadedDataSet};
use crate::dataset::{load_outcome, outcome_of, DataSet, FormatView, LoadRequest, RequestView};
use crate::error::{ErrorKind, LgbmError};
use crate::matrix::copy_range;

verus! {

/// Where a fit stands.
#[derive(Clone, Copy, Debug, PartialEq, Eq, Structural)]
pub enum Stage {
    /// The training dataset is to be loaded.
    LoadTrain,
    /// The training dataset was created; its labels are to be attached.
    TrainLabels,
    /// The model is to be created from the training dataset.
    CreateBooster,
    /// The next validation dataset is to be loaded.
    LoadValidation,
    /// A validation dataset was created; its labels are to be attached.
    ValidationLabels,
    /// A validation dataset is to be attached to the model.
    AddValidation,
    /// The model is being trained.
    Train,
    /// A call failed; the handles held are to be released.
    Releasing,
    /// Training has ended; the model can be taken.
    Done,
    /// The fit failed and every handle was released.
    Failed,
}

/// The outcome of the native call that the session asked for.
#[derive(Debug)]
pub enum CallOutcome {
    /// The call succeeded and created the object with this handle.
    Handle(usize),
    /// One training iteration succeeded; `finished` is the engine's own early stop.
    Iterated { finished: bool },
    /// The call succeeded and created nothing.
    Completed,
    /// The call failed.
    Failed(LgbmError),
}

/// The mathematical value of a `CallOutcome`.
pub enum OutcomeView {
    Handle(usize),
    Iterated(bool),
    Completed,
    Failed(ErrorKind),
}

impl View for CallOutcome {
    type V = OutcomeView;

    open spec fn view(&self) -> OutcomeView {
        match self {
            CallOutcome::Handle(h) => OutcomeView::Handle(*h),
            CallOutcome::Iterated { finished } => OutcomeView::Iterated(*finished),
            CallOutcome::Completed => OutcomeView::Completed,
            CallOutcome::Failed(e) => OutcomeView::Failed(e.kind),
        }
    }
}

/// The next native call to make.
#[derive(Debug)]
pub enum FitAction<T> {
    /// Load a dataset; the outcome is the handle of the dataset created.
    Load(LoadRequest<T>),
    /// Attach `labels` as the label field of `dataset`.
    SetLabels { dataset: usize, labels: Vec<T> },
    /// Create the model from the training dataset; the outcome is its handle.
    CreateBooster { train: usize, params: String },
    /// Register `dataset` with the model as validation data.
    AddValidation { booster: usize, dataset: usize },
    /// Run one training iteration.
    UpdateOneIter { booster: usize },
    /// Free the model handle, if any, then the datasets in the order given.
    Release { model: Option<usize>, datasets: Vec<usize> },
    /// Nothing more to call: take the result with `into_booster`.
    Finish,
}

/// The mathematical value of a `FitAction`. A release is the whole order of handles,
/// the model first.
pub enum ActionView<T> {
    Load(RequestView<T>),
    SetLabels(usize, Seq<T>),
    CreateBooster(usize, Seq<char>),
    AddValidation(usize, usize),
    UpdateOneIter(usize),
    Release(Seq<usize>),
    Finish,
}

impl<T> View for FitAction<T> {
    type V = ActionView<T>;

    open spec fn view(&self) -> ActionView<T> {
        match self {
            FitAction::Load(r) => ActionView::Load(r@),
            FitAction::SetLabels { dataset, labels } => ActionView::SetLabels(*dataset, labels@),
            FitAction::CreateBooster { train, params } => ActionView::CreateBooster(*train, params@),
            FitAction::AddValidation { booster, dataset } => ActionView::AddValidation(*booster, *dataset),
            FitAction::UpdateOneIter { booster } => ActionView::UpdateOneIter(*booster),
            FitAction::Release { model, datasets } => ActionView::Release(opt_seq(*model) + datasets@),
            FitAction::Finish => ActionView::Finish,
        }
    }
}

/// The mathematical value of a `FitSession`.
pub struct SessionView<T> {
    pub stage: Stage,
    pub train_data: (FormatView<T>, Seq<char>),
    pub val_data: Seq<(FormatView<T>, Seq<char>)>,
    pub params: Seq<char>,
    pub budget: int,
    pub booster: Option<usize>,
    pub train: Option<usize>,
    pub validation: Seq<usize>,
    pub current: Option<usize>,
    /// The labels to attach to the dataset being loaded, when it is a matrix.
    pub labels: Seq<T>,
    pub with_labels: bool,
    pub iterations: int,
    pub error: Option<ErrorKind>,
}

/// The handles that a session holds, in the order they are to be released.
pub open spec fn owned<T>(s: SessionView<T>) -> Seq<usize> {
    release_order(s.booster, s.current, s.validation, s.train)
}

/// A handle that the engine may hand out now: not null, and not one already held.
pub open spec fn fresh<T>(s: SessionView<T>, h: usize) -> bool {
    h != 0 && !owned(s).contains(h)
}

/// What a session holds at each stage.
pub open spec fn wf<T>(s: SessionView<T>) -> bool {
    &&& owned(s).no_duplicates()
    &&& !owned(s).contains(0usize)
    &&& s.validation.len() <= s.val_data.len()
    &&& 0 <= s.iterations
    &&& (s.error is Some <==> (s.stage == Stage::Releasing || s.stage == Stage::Failed))
    &&& match s.stage {
        Stage::LoadTrain => s.booster is None && s.train is None && s.current is None && s.validation.len() == 0 && s.iterations == 0,
        Stage::TrainLabels => s.booster is None && s.train is None && s.current is Some && s.validation.len() == 0 && s.iterations == 0,
        Stage::CreateBooster => s.booster is None && s.train is Some && s.current is None && s.validation.len() == 0 && s.iterations == 0,
        Stage::LoadValidation => s.booster is Some && s.train is Some && s.current is None && s.validation.len() < s.val_data.len() && s.iterations == 0,
        Stage::ValidationLabels | Stage::AddValidation => s.booster is Some && s.train is Some && s.current is Some && s.validation.len() < s.val_data.len() && s.iterations == 0,
        Stage::Train => s.booster is Some && s.train is Some && s.current is None && s.validation.len() == s.val_data.len() && s.iterations < s.budget,
        Stage::Done => s.booster is Some && s.train is Some && s.current is None && s.validation.len() == s.val_data.len() && (s.iterations <= s.budget || s.iterations == 0),
        Stage::Releasing => true,
        Stage::Failed => owned(s).len() == 0,
    }
}

/// The stage that follows the attachment of the validation datasets (or the creation of
/// the model, when there are none): training, unless the budget allows no iteration.
pub open spec fn training_stage(budget: int) -> Stage {
    if budget > 0 {
        Stage::Train
    } else {
        Stage::Done
    }
}

/// The session stopped by an error of kind `k`, its handles still to be released.
pub open spec fn failing<T>(s: SessionView<T>, k: ErrorKind) -> SessionView<T> {
    SessionView { stage: Stage::Releasing, error: Some(k), ..s }
}

/// What the outcome of the last call does to a session.
pub open spec fn apply<T>(s: SessionView<T>, o: OutcomeView) -> SessionView<T> {
    if s.stage == Stage::Done || s.stage == Stage::Failed || s.stage == Stage::Releasing {
        s
    } else {
        match o {
            OutcomeView::Failed(k) => failing(s, k),
            OutcomeView::Handle(h) => if !fresh(s, h) {
                failing(s, ErrorKind::Protocol)
            } else {
                match s.stage {
                    Stage::LoadTrain => if s.with_labels {
                        SessionView { stage: Stage::TrainLabels, current: Some(h), ..s }
                    } else {
                        SessionView { stage: Stage::CreateBooster, train: Some(h), ..s }
                    },
                    Stage::CreateBooster => SessionView {
                        stage: if s.val_data.len() > 0 { Stage::LoadValidation } else { training_stage(s.budget) },
                        booster: Some(h),
                        ..s
                    },
                    Stage::LoadValidation => SessionView {
                        stage: if s.with_labels { Stage::ValidationLabels } else { Stage::AddValidation },
                        current: Some(h),
                        ..s
                    },
                    _ => failing(s, ErrorKind::Protocol),
                }
            },
            OutcomeView::Completed => match s.stage {
                Stage::TrainLabels => SessionView { stage: Stage::CreateBooster, train: s.current, current: None, ..s },
                Stage::ValidationLabels => SessionView { stage: Stage::AddValidation, ..s },
                Stage::AddValidation => SessionView {
                    stage: if s.validation.len() + 1 < s.val_data.len() { Stage::LoadValidation } else { training_stage(s.budget) },
                    validation: s.validation.push(s.current->Some_0),
                    current: None,
                    ..s
                },
                _ => failing(s, ErrorKind::Protocol),
            },
            OutcomeView::Iterated(finished) => match s.stage {
                Stage::Train => SessionView {
                    stage: if finished || s.iterations + 1 >= s.budget { Stage::Done } else { Stage::Train },
                    iterations: s.iterations + 1,
                    ..s
                },
                _ => failing(s, ErrorKind::Protocol),
            },
        }
    }
}

/// The session after it released every handle it held.
pub open spec fn released<T>(s: SessionView<T>) -> SessionView<T> {
    SessionView { stage: Stage::Failed, booster: None, train: None, validation: Seq::empty(), current: None, ..s }
}

/// The labels that a load request attaches, and whether it attaches any.
pub open spec fn request_labels<T>(r: RequestView<T>) -> (Seq<T>, bool) {
    match r {
        RequestView::Matrix(_, _, _, labels, _, _) => (labels, true),
        RequestView::File(..) => (Seq::empty(), false),
    }
}

/// The session about to load `ds`, and the call to make; a dataset that cannot be loaded
/// stops the session, which releases what it holds.
pub open spec fn emit_load<T>(s: SessionView<T>, ds: (FormatView<T>, Seq<char>), reference: Option<usize>) -> (SessionView<T>, ActionView<T>) {
    match load_outcome(ds, reference) {
        Ok(r) => (SessionView { labels: request_labels(r).0, with_labels: request_labels(r).1, ..s }, ActionView::Load(r)),
        Err(k) => (released(failing(s, k)), ActionView::Release(owned(s))),
    }
}

/// The next call that a session asks for, and the session once it has asked.
pub open spec fn emit<T>(s: SessionView<T>) -> (SessionView<T>, ActionView<T>) {
    match s.stage {
        Stage::LoadTrain => emit_load(s, s.train_data, None),
        Stage::TrainLabels | Stage::ValidationLabels => (s, ActionView::SetLabels(s.current->Some_0, s.labels)),
        Stage::CreateBooster => (s, ActionView::CreateBooster(s.train->Some_0, s.params)),
        Stage::LoadValidation => emit_load(s, s.val_data[s.validation.len() as int], s.train),
        Stage::AddValidation => (s, ActionView::AddValidation(s.booster->Some_0, s.current->Some_0)),
        Stage::Train => (s, ActionView::UpdateOneIter(s.booster->Some_0)),
        Stage::Releasing => (released(s), ActionView::Release(owned(s))),
        Stage::Done | Stage::Failed => (s, ActionView::Finish),
    }
}

/// A fit in progress. Made by `BoosterBuilder::fit`; driven by `start`, then `advance`
/// with the outcome of each call, until the action is `Finish`.
#[derive(Debug)]
pub struct FitSession<T> {
    stage: Stage,
    train_data: DataSet<T>,
    val_data: Vec<DataSet<T>>,
    params: String,
    budget: i32,
    booster: Option<usize>,
    train: Option<usize>,
    validation: Vec<usize>,
    current: Option<usize>,
    labels: Vec<T>,
    with_labels: bool,
    iterations: i32,
    error: Option<LgbmError>,
}

impl<T> View for FitSession<T> {
    type V = SessionView<T>;

    closed spec fn view(&self) -> SessionView<T> {
        SessionView {
            stage: self.stage,
            train_data: self.train_data@,
            val_data: self.val_data@.map_values(|d: DataSet<T>| d@),
            params: self.params@,
            budget: self.budget as int,
            booster: self.booster,
            train: self.train,
            validation: self.validation@,
            current: self.current,
            labels: self.labels@,
            with_labels: self.with_labels,
            iterations: self.iterations as int,
            error: match self.error {
                Some(e) => Some(e.kind),
                None => None,
            },
        }
    }
}

proof fn lemma_reverse_contains(v: Seq<usize>, h: usize)
    ensures
        v.reverse().contains(h) <==> v.contains(h),
{
    if v.contains(h) {
        let i = choose|i: int| 0 <= i < v.len() && v[i] == h;
        assert(v.reverse()[v.len() - 1 - i] == h);
    }
    if v.reverse().contains(h) {
        let i = choose|i: int| 0 <= i < v.reverse().len() && v.reverse()[i] == h;
        assert(v[v.len() - 1 - i] == h);
    }
}

proof fn lemma_opt_contains(o: Option<usize>, h: usize)
    ensures
        opt_seq(o).contains(h) <==> o == Some(h),
{
    if o == Some(h) {
        assert(opt_seq(o)[0] == h);
    }
}

proof fn lemma_owned_contains<T>(s: SessionView<T>, h: usize)
    ensures
        owned(s).contains(h) <==> (s.booster == Some(h) || s.current == Some(h) || s.validation.contains(h) || s.train == Some(h)),
{
    let a = opt_seq(s.booster);
    let b = opt_seq(s.current);
    let c = s.validation.reverse();
    let d = opt_seq(s.train);
    lemma_reverse_contains(s.validation, h);
    lemma_opt_contains(s.booster, h);
    lemma_opt_contains(s.current, h);
    lemma_opt_contains(s.train, h);
    assert(owned(s) == a + b + c + d);
    vstd::seq_lib::lemma_seq_concat_contains_all_elements(a + b + c, d, h);
    vstd::seq_lib::lemma_seq_concat_contains_all_elements(a + b, c, h);
    vstd::seq_lib::lemma_seq_concat_contains_all_elements(a, b, h);
}

proof fn lemma_insert_fresh(x: Seq<usize>, y: Seq<usize>, h: usize)
    requires
        (x + y).no_duplicates(),
        !(x + y).contains(h),
    ensures
        (x + seq![h] + y).no_duplicates(),
        (x + seq![h] + y).contains(h),
        forall|g: usize| (x + seq![h] + y).contains(g) <==> g == h || (x + y).contains(g),
{
    let z = x + seq![h] + y;
    let w = x + y;
    assert forall|i: int, j: int| 0 <= i < j < z.len() implies z[i] != z[j] by {
        let wi = if i < x.len() { i } else { i - 1 };
        let wj = if j < x.len() { j } else { j - 1 };
        if i == x.len() {
            assert(z[j] == w[wj]);
        } else if j == x.len() {
            assert(z[i] == w[wi]);
        } else {
            assert(z[i] == w[wi] && z[j] == w[wj]);
        }
    }
    assert(z[x.len() as int] == h);
    assert forall|g: usize| z.contains(g) <==> g == h || w.contains(g) by {
        if z.contains(g) && g != h {
            let i = choose|i: int| 0 <= i < z.len() && z[i] == g;
            let wi = if i < x.len() { i } else { i - 1 };
            assert(w[wi] == g);
        }
        if w.contains(g) {
            let i = choose|i: int| 0 <= i < w.len() && w[i] == g;
            let zi = if i < x.len() { i } else { i + 1 };
            assert(z[zi] == g);
        }
    }
}

/// Each step keeps a session well-formed: the handles it holds are distinct and not null,
/// and they are the ones its stage calls for. After a step the session is never left
/// with handles still to release.
pub proof fn lemma_step_wf<T>(s: SessionView<T>, o: OutcomeView)
    requires
        wf(s),
        s.stage != Stage::Releasing,
    ensures
        wf(apply(s, o)),
        wf(emit(apply(s, o)).0),
        emit(apply(s, o)).0.stage != Stage::Releasing,
        forall|h: usize| owned(s).contains(h) ==> #[trigger] owned(apply(s, o)).contains(h),
{
    let t = apply(s, o);
    let e = Seq::<usize>::empty();
    if t.stage != s.stage || t != s {
        match o {
            OutcomeView::Handle(h) => {
                if fresh(s, h) {
                    match s.stage {
                        Stage::LoadTrain => {
                            assert(owned(s) =~= e + e);
                            lemma_insert_fresh(e, e, h);
                            assert(owned(t) =~= e + seq![h] + e);
                        },
                        Stage::CreateBooster => {
                            assert(owned(s) =~= e + opt_seq(s.train));
                            lemma_insert_fresh(e, opt_seq(s.train), h);
                            assert(owned(t) =~= e + seq![h] + opt_seq(s.train));
                        },
                        Stage::LoadValidation => {
                            let x = opt_seq(s.booster);
                            let y = s.validation.reverse() + opt_seq(s.train);
                            assert(owned(s) =~= x + y);
                            lemma_insert_fresh(x, y, h);
                            assert(owned(t) =~= x + seq![h] + y);
                        },
                        _ => {},
                    }
                }
            },
            OutcomeView::Completed => {
                match s.stage {
                    Stage::TrainLabels => {
                        assert(owned(t) =~= owned(s));
                    },
                    Stage::AddValidation => {
                        assert(t.validation.reverse() =~= seq![s.current->Some_0] + s.validation.reverse());
                        assert(owned(t) =~= owned(s));
                    },
                    _ => {},
                }
            },
            _ => {},
        }
    }
    assert forall|h: usize| owned(s).contains(h) implies #[trigger] owned(t).contains(h) by {
        if owned(t) != owned(s) {
            if let OutcomeView::Handle(g) = o {
                lemma_owned_contains(s, h);
                lemma_owned_contains(t, h);
            }
        }
    }
    let u = emit(t).0;
    if t.stage == Stage::Releasing || (t.stage == Stage::LoadTrain && load_outcome(t.train_data, None) is Err)
        || (t.stage == Stage::LoadValidation && load_outcome(t.val_data[t.validation.len() as int], t.train) is Err) {
        assert(owned(u) =~= e);
    }
}

/// No handle is lost and none is released twice: a step keeps every handle held
/// before it, or asks for its release; a release names every handle held, each once, and
/// leaves the session holding none.
pub proof fn lemma_handles_accounted<T>(s: SessionView<T>, o: OutcomeView)
    requires
        wf(s),
        s.stage != Stage::Releasing,
    ensures
        ({
            let (u, a) = emit(apply(s, o));
            &&& forall|h: usize| owned(s).contains(h) ==> owned(u).contains(h) || (a matches ActionView::Release(r) && r.contains(h))
            &&& a matches ActionView::Release(r) ==> r == owned(apply(s, o)) && r.no_duplicates() && owned(u).len() == 0
        }),
{
    lemma_step_wf(s, o);
    let t = apply(s, o);
    let (u, a) = emit(t);
    if let ActionView::Release(r) = a {
        assert(owned(u) =~= Seq::<usize>::empty());
    } else {
        assert(owned(u) == owned(t));
    }
}

impl<T: Copy> FitSession<T> {
    /// The result of a fit that has ended: the trained model, which now owns the model
    /// handle and the loaded datasets, or the error that stopped the fit.
    pub fn into_booster(self) -> (r: Result<Booster, LgbmError>)
        requires
            wf(self@),
            self@.stage == Stage::Done || self@.stage == Stage::Failed,
        ensures
            self@.stage == Stage::Done ==> (r matches Ok(b) && b@.handle == self@.booster->Some_0 && b@.train
                == self@.train->Some_0 && b@.validation == self@.validation),
            self@.stage == Stage::Failed ==> (r matches Err(e) && self@.error == Some(e.kind)),
            r matches Ok(b) ==> release_order(Some(b@.handle), None, b@.validation, Some(b@.train)).no_duplicates(),
    {
        if self.stage == Stage::Failed {
            return Err(self.error.unwrap());
        }
        let ghost s = self@;
        let mut datasets: Vec<LoadedDataSet> = Vec::new();
        let mut i: usize = 0;
        while i < self.validation.len()
            invariant
                s == self@,
                i <= self.validation@.len(),
                datasets@.map_values(|d: LoadedDataSet| d@) == self.validation@.take(i as int),
            decreases self.validation@.len() - i,
        {
            let ghost before = datasets@;
            datasets.push(LoadedDataSet::new(self.validation[i]));
            proof {
                assert(datasets@.map_values(|d: LoadedDataSet| d@) =~= before.map_values(|d: LoadedDataSet| d@).push(self.validation@[i as int]));
                assert(self.validation@.take(i + 1) =~= self.validation@.take(i as int).push(self.validation@[i as int]));
            }
            i += 1;
        }
        proof {
            assert(self.validation@.take(i as int) =~= self.validation@);
        }
        let b = Booster::new(self.booster.unwrap(), LoadedDataSet::new(self.train.unwrap()), datasets);
        Ok(b)
    }

    /// Starts the fit: the first call to make.
    pub fn start(&mut self) -> (a: FitAction<T>)
        requires
            wf(old(self)@),
            old(self)@.stage == Stage::LoadTrain,
        ensures
            (final(self)@, a@) == emit(old(self)@),
            wf(final(self)@),
            final(self)@.stage != Stage::Releasing,
    {
        proof {
            lemma_step_wf(self@, OutcomeView::Handle(0));
        }
        self.emit()
    }

    /// Takes the outcome of the last call and returns the next call to make.
    pub fn advance(&mut self, outcome: CallOutcome) -> (a: FitAction<T>)
        requires
            wf(old(self)@),
            old(self)@.stage != Stage::Releasing,
        ensures
            (final(self)@, a@) == emit(apply(old(self)@, outcome@)),
            wf(final(self)@),
            final(self)@.stage != Stage::Releasing,
    {
        proof {
            lemma_step_wf(self@, outcome@);
        }
        self.apply(outcome);
        self.emit()
    }
}

impl<T: Copy> FitSession<T> {
    pub(crate) fn new(train_data: DataSet<T>, val_data: Vec<DataSet<T>>, params: String, budget: i32) -> (r: FitSession<T>)
        ensures
            r@.stage == Stage::LoadTrain,
            r@.train_data == train_data@,
            r@.val_data == val_data@.map_values(|d: DataSet<T>| d@),
            r@.params == params@,
            r@.budget == budget,
            wf(r@),
    {
        let r = FitSession {
            stage: Stage::LoadTrain,
            train_data,
            val_data,
            params,
            budget,
            booster: None,
            train: None,
            validation: Vec::new(),
            current: None,
            labels: Vec::new(),
            with_labels: false,
            iterations: 0,
            error: None,
        };
        proof {
            assert(owned(r@) =~= Seq::<usize>::empty());
        }
        r
    }

    /// Where the fit stands.
    pub fn stage(&self) -> (r: Stage)
        ensures
            r == self@.stage,
    {
        self.stage
    }

    fn is_fresh(&self, h: usize) -> (r: bool)
        ensures
            r == fresh(self@, h),
    {
        proof {
            lemma_owned_contains(self@, h);
        }
        if h == 0 {
            return false;
        }
        if let Some(b) = self.booster {
            if b == h {
                return false;
            }
        }
        if let Some(c) = self.current {
            if c == h {
                return false;
            }
        }
        if let Some(t) = self.train {
            if t == h {
                return false;
            }
        }
        let mut i: usize = 0;
        while i < self.validation.len()
            invariant
                i <= self.validation@.len(),
                forall|k: int| 0 <= k < i ==> self.validation@[k] != h,
            decreases self.validation@.len() - i,
        {
            if self.validation[i] == h {
                proof {
                    assert(self@.validation[i as int] == h);
                    assert(self@.validation.contains(h));
                    lemma_owned_contains(self@, h);
                }
                return false;
            }
            i += 1;
        }
        proof {
            assert(!self@.validation.contains(h));
            lemma_owned_contains(self@, h);
        }
        true
    }

    /// Hands back every handle held, in release order, and marks the fit failed.
    fn release_all(&mut self) -> (a: FitAction<T>)
        requires
            old(self)@.error is Some,
        ensures
            final(self)@ == released(old(self)@),
            a@ == ActionView::<T>::Release(owned(old(self)@)),
    {
        let ghost s = self@;
        let mut datasets: Vec<usize> = Vec::new();
        if let Some(c) = self.current {
            datasets.push(c);
        }
        let mut i: usize = self.validation.len();
        while i > 0
            invariant
                i <= self.validation@.len(),
                self@ == s,
                datasets@ == opt_seq(s.current) + s.validation.skip(i as int).reverse(),
            decreases i,
        {
            i -= 1;
            datasets.push(self.validation[i]);
            proof {
                assert(s.validation.skip(i as int) =~= seq![s.validation[i as int]] + s.validation.skip(i + 1));
                assert(s.validation.skip(i as int).reverse() =~= s.validation.skip(i + 1).reverse().push(s.validation[i as int]));
                assert(datasets@ =~= opt_seq(s.current) + s.validation.skip(i as int).reverse());
            }
        }
        if let Some(t) = self.train {
            datasets.push(t);
        }
        let model = self.booster;
        self.stage = Stage::Failed;
        self.booster = None;
        self.train = None;
        self.current = None;
        self.validation = Vec::new();
        proof {
            assert(s.validation.skip(0) =~= s.validation);
            assert(opt_seq(model) + datasets@ =~= owned(s));
            assert(self@ =~= released(s));
        }
        FitAction::Release { model, datasets }
    }

    fn fail(&mut self, e: LgbmError)
        ensures
            final(self)@ == failing(old(self)@, e.kind),
    {
        self.stage = Stage::Releasing;
        self.error = Some(e);
    }

    fn emit_load(&mut self, which: usize, reference: Option<usize>) -> (a: FitAction<T>)
        requires
            which == 0 || which - 1 < old(self)@.val_data.len(),
        ensures
            (final(self)@, a@) == emit_load(
                old(self)@,
                if which == 0 { old(self)@.train_data } else { old(self)@.val_data[which - 1] },
                reference,
            ),
    {
        let req = if which == 0 {
            self.train_data.load_request(reference)
        } else {
            self.val_data[which - 1].load_request(reference)
        };
        match req {
            Ok(r) => {
                match &r {
                    LoadRequest::Matrix { labels, .. } => {
                        self.labels = copy_range(labels, 0, labels.len());
                        self.with_labels = true;
                        proof {
                            assert(labels@.subrange(0, labels@.len() as int) =~= labels@);
                        }
                    },
                    LoadRequest::File { .. } => {
                        self.labels = Vec::new();
                        self.with_labels = false;
                    },
                }
                proof {
                    assert(self@.labels =~= request_labels(r@).0);
                }
                FitAction::Load(r)
            },
            Err(e) => {
                self.fail(e);
                self.release_all()
            },
        }
    }

    fn emit(&mut self) -> (a: FitAction<T>)
        requires
            wf(old(self)@),
        ensures
            (final(self)@, a@) == emit(old(self)@),
    {
        match self.stage {
            Stage::LoadTrain => self.emit_load(0, None),
            Stage::TrainLabels | Stage::ValidationLabels => {
                let labels = copy_range(&self.labels, 0, self.labels.len());
                proof {
                    assert(self.labels@.subrange(0, self.labels@.len() as int) =~= self.labels@);
                }
                FitAction::SetLabels { dataset: self.current.unwrap(), labels }
            },
            Stage::CreateBooster => FitAction::CreateBooster { train: self.train.unwrap(), params: self.params.clone() },
            Stage::LoadValidation => {
                let k = self.validation.len();
                let n = self.val_data.len();
                proof {
                    assert(k < n);
                }
                self.emit_load(k + 1, self.train)
            },
            Stage::AddValidation => FitAction::AddValidation { booster: self.booster.unwrap(), dataset: self.current.unwrap() },
            Stage::Train => FitAction::UpdateOneIter { booster: self.booster.unwrap() },
            Stage::Releasing => self.release_all(),
            Stage::Done | Stage::Failed => FitAction::Finish,
        }
    }

    fn apply(&mut self, outcome: CallOutcome)
        requires
            wf(old(self)@),
        ensures
            final(self)@ == apply(old(self)@, outcome@),
    {
        if self.stage == Stage::Done || self.stage == Stage::Failed || self.stage == Stage::Releasing {
            return;
        }
        match outcome {
            CallOutcome::Failed(e) => self.fail(e),
            CallOutcome::Handle(h) => {
                if !self.is_fresh(h) {
                    self.fail(LgbmError::new(ErrorKind::Protocol, String::from_str("the engine returned a null or duplicate handle")));
                    return;
                }
                match self.stage {
                    Stage::LoadTrain => {
                        if self.with_labels {
                            self.stage = Stage::TrainLabels;
                            self.current = Some(h);
                        } else {
                            self.stage = Stage::CreateBooster;
                            self.train = Some(h);
                        }
                    },
                    Stage::CreateBooster => {
                        self.booster = Some(h);
                        self.stage = if self.val_data.len() > 0 {
                            Stage::LoadValidation
                        } else if self.budget > 0 {
                            Stage::Train
                        } else {
                            Stage::Done
                        };
                    },
                    Stage::LoadValidation => {
                        self.current = Some(h);
                        self.stage = if self.with_labels {
                            Stage::ValidationLabels
                        } else {
                            Stage::AddValidation
                        };
                    },
                    _ => self.fail(LgbmError::new(ErrorKind::Protocol, String::from_str("unexpected handle"))),
                }
            },
            CallOutcome::Completed => {
                match self.stage {
                    Stage::TrainLabels => {
                        self.train = self.current;
                        self.current = None;
                        self.stage = Stage::CreateBooster;
                    },
                    Stage::ValidationLabels => {
                        self.stage = Stage::AddValidation;
                    },
                    Stage::AddValidation => {
                        let c = self.current.unwrap();
                        self.validation.push(c);
                        self.current = None;
                        self.stage = if self.validation.len() < self.val_data.len() {
                            Stage::LoadValidation
                        } else if self.budget > 0 {
                            Stage::Train
                        } else {
                            Stage::Done
                        };
                    },
                    _ => self.fail(LgbmError::new(ErrorKind::Protocol, String::from_str("unexpected completion"))),
                }
            },
            CallOutcome::Iterated { finished } => {
                match self.stage {
                    Stage::Train => {
                        self.iterations = self.iterations + 1;
                        self.stage = if finished || self.iterations >= self.budget {
                            Stage::Done
                        } else {
                            Stage::Train
                        };
                    },
                    _ => self.fail(LgbmError::new(ErrorKind::Protocol, String::from_str("unexpected iteration"))),
                }
            },
        }
    }
}

} // verus!
