use lightgbm::booster::{output_len, prediction_input};
use lightgbm::matrix::reshape;
use lightgbm::{
    Booster, CallOutcome, DataSet, ErrorKind, FitAction, FitSession, LgbmError, LoadRequest,
    ParamValue, Params, Stage,
};

/// A scripted stand-in for the native engine: it hands out handles, records each call,
/// and checks that every handle is freed once, after what references it.
struct Engine {
    next: usize,
    calls: Vec<String>,
    fail_call: Option<usize>,
    stop_after: Option<usize>,
    updates: usize,
    live: Vec<usize>,
    freed: Vec<usize>,
    null_handle: bool,
}

impl Engine {
    fn new() -> Engine {
        Engine {
            next: 100,
            calls: vec![],
            fail_call: None,
            stop_after: None,
            updates: 0,
            live: vec![],
            freed: vec![],
            null_handle: false,
        }
    }

    fn handle(&mut self) -> CallOutcome {
        if self.null_handle {
            return CallOutcome::Handle(0);
        }
        self.next += 1;
        self.live.push(self.next);
        CallOutcome::Handle(self.next)
    }

    fn free(&mut self, h: usize) {
        assert!(self.live.contains(&h), "handle {} freed but not live", h);
        self.live.retain(|x| *x != h);
        self.freed.push(h);
    }

    fn run(&mut self, mut session: FitSession<f64>) -> Result<Booster, LgbmError> {
        let mut action = session.start();
        loop {
            let failing = self.fail_call == Some(self.calls.len());
            let outcome = match action {
                FitAction::Load(req) => {
                    match req {
                        LoadRequest::Matrix { rows, cols, reference, .. } => {
                            self.calls.push(format!("load {}x{} ref={:?}", rows, cols, reference))
                        }
                        LoadRequest::File { path, reference, .. } => {
                            self.calls.push(format!("load {} ref={:?}", path, reference))
                        }
                    }
                    if failing {
                        CallOutcome::Failed(LgbmError::new(ErrorKind::Native, "cannot load".to_string()))
                    } else {
                        self.handle()
                    }
                }
                FitAction::SetLabels { dataset, labels } => {
                    self.calls.push(format!("labels {} n={}", dataset, labels.len()));
                    if failing {
                        CallOutcome::Failed(LgbmError::new(ErrorKind::Native, "bad labels".to_string()))
                    } else {
                        CallOutcome::Completed
                    }
                }
                FitAction::CreateBooster { train, params } => {
                    self.calls.push(format!("create {} {}", train, params));
                    if failing {
                        CallOutcome::Failed(LgbmError::new(ErrorKind::Native, "bad config".to_string()))
                    } else {
                        self.handle()
                    }
                }
                FitAction::AddValidation { booster, dataset } => {
                    self.calls.push(format!("add {} {}", booster, dataset));
                    if failing {
                        CallOutcome::Failed(LgbmError::new(ErrorKind::Native, "cannot add".to_string()))
                    } else {
                        CallOutcome::Completed
                    }
                }
                FitAction::UpdateOneIter { booster } => {
                    self.calls.push(format!("update {}", booster));
                    self.updates += 1;
                    if failing {
                        CallOutcome::Failed(LgbmError::new(ErrorKind::Native, "update failed".to_string()))
                    } else {
                        CallOutcome::Iterated { finished: self.stop_after == Some(self.updates) }
                    }
                }
                FitAction::Release { model, datasets } => {
                    if let Some(m) = model {
                        self.free(m);
                    }
                    for d in datasets {
                        self.free(d);
                    }
                    break;
                }
                FitAction::Finish => break,
            };
            action = session.advance(outcome);
        }
        session.into_booster()
    }

    fn drop_booster(&mut self, b: Booster) {
        for h in b.into_release_order() {
            self.free(h);
        }
    }
}

fn dummy_data_1() -> (Vec<Vec<f64>>, Vec<f64>) {
    let data = vec![
        vec![1.0, 0.1, 0.2, 0.1],
        vec![0.7, 0.4, 0.5, 0.1],
        vec![0.9, 0.8, 0.5, 0.1],
        vec![0.2, 0.2, 0.8, 0.7],
        vec![0.1, 0.7, 1.0, 0.9],
    ];
    (data, vec![0.0, 0.0, 0.0, 1.0, 1.0])
}

fn dummy_data_2() -> (Vec<Vec<f64>>, Vec<f64>) {
    let data = vec![
        vec![8.0, 0.2, 0.4, 0.5],
        vec![0.9, 0.4, 0.3, 0.5],
        vec![0.5, 0.6, 0.3, 0.8],
        vec![0.244, 0.25, 0.9, 0.9],
        vec![0.4, 0.8, 0.8, 0.7],
    ];
    (data, vec![0.0, 0.0, 0.0, 1.0, 1.0])
}

fn simple_params(iterations: i64) -> Params {
    let mut p = Params::new();
    p.insert("num_iterations".to_string(), ParamValue::Int(iterations));
    p.insert("objective".to_string(), ParamValue::Str("binary".to_string()));
    p.insert("metric".to_string(), ParamValue::Str("auc".to_string()));
    p.insert("data_random_seed".to_string(), ParamValue::Int(0));
    p
}

fn session_with_validation(iterations: i64) -> FitSession<f64> {
    let (x, y) = dummy_data_1();
    let (vx, vy) = dummy_data_2();
    Booster::builder()
        .add_train_data(DataSet::from_mat(x, y))
        .add_val_data(DataSet::from_mat(vx, vy))
        .add_params(simple_params(iterations))
        .unwrap()
        .fit()
}

#[test]
fn simple() {}

#[test]
fn fit_makes_calls_in_protocol_order() {
    let mut engine = Engine::new();
    let booster = engine.run(session_with_validation(5)).unwrap();
    assert_eq!(
        engine.calls,
        vec![
            "load 5x4 ref=None".to_string(),
            "labels 101 n=5".to_string(),
            "create 101 data_random_seed=0 metric=\"auc\" num_iterations=5 objective=\"binary\"".to_string(),
            "load 5x4 ref=Some(101)".to_string(),
            "labels 103 n=5".to_string(),
            "add 102 103".to_string(),
            "update 102".to_string(),
            "update 102".to_string(),
            "update 102".to_string(),
            "update 102".to_string(),
            "update 102".to_string(),
        ]
    );
    assert_eq!(booster.handle(), 102);
    assert_eq!(booster.num_validation_sets(), 1);
    engine.drop_booster(booster);
    assert_eq!(engine.freed, vec![102, 103, 101]);
    assert!(engine.live.is_empty());
}

#[test]
fn engine_early_stop_ends_training() {
    let mut engine = Engine::new();
    engine.stop_after = Some(2);
    let booster = engine.run(session_with_validation(30)).unwrap();
    assert_eq!(engine.updates, 2);
    engine.drop_booster(booster);
}

#[test]
fn zero_budget_trains_nothing() {
    let mut engine = Engine::new();
    let booster = engine.run(session_with_validation(0)).unwrap();
    assert_eq!(engine.updates, 0);
    engine.drop_booster(booster);
    assert!(engine.live.is_empty());
}

#[test]
fn file_dataset_needs_no_labels() {
    let mut engine = Engine::new();
    let session = Booster::builder()
        .add_params(simple_params(1))
        .unwrap()
        .add_train_data(DataSet::<f64>::from_file("binary.train".to_string()))
        .fit();
    let booster = engine.run(session).unwrap();
    assert_eq!(engine.calls[0], "load binary.train ref=None");
    assert!(engine.calls[1].starts_with("create 101 "));
    engine.drop_booster(booster);
}

#[test]
fn failure_releases_every_handle_in_order() {
    for fail_at in 0..7 {
        let mut engine = Engine::new();
        engine.fail_call = Some(fail_at);
        let e = engine.run(session_with_validation(5)).unwrap_err();
        assert_eq!(e.kind, ErrorKind::Native);
        assert!(engine.live.is_empty(), "leak when call {} fails", fail_at);
    }
    let mut engine = Engine::new();
    engine.fail_call = Some(5);
    let e = engine.run(session_with_validation(5)).unwrap_err();
    assert_eq!(e.desc, "cannot add");
    assert_eq!(engine.freed, vec![102, 103, 101]);
}

#[test]
fn bad_validation_data_refused_before_loading() {
    let (x, y) = dummy_data_1();
    let session = Booster::builder()
        .add_train_data(DataSet::from_mat(x, y))
        .add_val_data(DataSet::from_mat(vec![vec![1.0, 2.0], vec![3.0]], vec![0.0, 1.0]))
        .add_params(simple_params(5))
        .unwrap()
        .fit();
    let mut engine = Engine::new();
    let e = engine.run(session).unwrap_err();
    assert_eq!(e.kind, ErrorKind::Dimension);
    assert_eq!(engine.calls.len(), 3);
    assert_eq!(engine.freed, vec![102, 101]);
}

#[test]
fn null_handle_is_protocol_error() {
    let mut engine = Engine::new();
    engine.null_handle = true;
    let e = engine.run(session_with_validation(5)).unwrap_err();
    assert_eq!(e.kind, ErrorKind::Protocol);
    assert!(engine.freed.is_empty());
}

#[test]
fn unexpected_outcome_is_protocol_error() {
    let mut session = session_with_validation(5);
    let first = session.start();
    assert!(matches!(first, FitAction::Load(_)));
    let action = session.advance(CallOutcome::Completed);
    assert!(matches!(action, FitAction::Release { model: None, .. }));
    assert_eq!(session.stage(), Stage::Failed);
    assert_eq!(session.into_booster().unwrap_err().kind, ErrorKind::Protocol);
}

#[test]
fn duplicate_handle_is_protocol_error() {
    let mut session = session_with_validation(5);
    session.start();
    session.advance(CallOutcome::Handle(7));
    session.advance(CallOutcome::Completed);
    let action = session.advance(CallOutcome::Handle(7));
    match action {
        FitAction::Release { model, datasets } => {
            assert_eq!(model, None);
            assert_eq!(datasets, vec![7]);
        }
        _ => panic!("expected a release"),
    }
}

#[test]
fn eval_index_out_of_range() {
    let mut engine = Engine::new();
    let booster = engine.run(session_with_validation(5)).unwrap();
    let calls = engine.calls.len();
    assert_eq!(booster.check_dataset_index(0).unwrap(), 0);
    assert_eq!(booster.check_dataset_index(1).unwrap(), 1);
    let e = booster.check_dataset_index(2).unwrap_err();
    assert_eq!(e.kind, ErrorKind::Range);
    assert_eq!(e.desc, "Invalid Dataset Index. Given: 2 Max Allowed: 1");
    assert_eq!(booster.check_dataset_index(-1).unwrap_err().kind, ErrorKind::Range);
    assert_eq!(engine.calls.len(), calls);
    engine.drop_booster(booster);
}

#[test]
fn binary_round_trip_shape() {
    let (x, y) = dummy_data_1();
    let session = Booster::builder()
        .add_train_data(DataSet::from_mat(x, y))
        .add_params(simple_params(5))
        .unwrap()
        .fit();
    let mut engine = Engine::new();
    let booster = engine.run(session).unwrap();
    let input = vec![
        vec![8.0, 0.2, 0.4, 0.5],
        vec![0.9, 0.4, 0.3, 0.5],
        vec![0.5, 0.6, 0.3, 0.8],
    ];
    let (flat, rows, cols) = prediction_input(&input).unwrap();
    assert_eq!((flat.len(), rows, cols), (12, 3, 4));
    let query = booster.prediction(&input).unwrap();
    assert_eq!(query.handle(), booster.handle());
    let call = query.with_classes(1).unwrap();
    assert_eq!(call.out_len, output_len(rows, 1).unwrap());
    let pred = call.finish(vec![0.25, 0.5, 0.75]).unwrap();
    assert_eq!(pred.len(), 1);
    assert_eq!(pred[0].len(), 3);
    assert_eq!(reshape(vec![0.25, 0.5, 0.75], 1), pred);
    engine.drop_booster(booster);
}

#[test]
fn multiclass_prediction_steps() {
    let mut engine = Engine::new();
    let booster = engine.run(session_with_validation(1)).unwrap();
    let input = vec![vec![1.0, 2.0, 3.0, 4.0], vec![5.0, 6.0, 7.0, 8.0]];
    let call = booster.prediction(&input).unwrap().with_classes(3).unwrap();
    assert_eq!(call.out_len, 6);
    assert_eq!(call.data, vec![1.0, 2.0, 3.0, 4.0, 5.0, 6.0, 7.0, 8.0]);
    let pred = call.finish(vec![0.1, 0.2, 0.7, 0.6, 0.3, 0.1]).unwrap();
    assert_eq!(pred, vec![vec![0.1, 0.2, 0.7], vec![0.6, 0.3, 0.1]]);
    assert_eq!(call_with_short_output(&booster), ErrorKind::Protocol);
    assert_eq!(booster.prediction(&input).unwrap().with_classes(-1).unwrap_err().kind, ErrorKind::Protocol);
    let ragged = vec![vec![1.0], vec![1.0, 2.0]];
    assert_eq!(booster.prediction(&ragged).unwrap_err().kind, ErrorKind::Dimension);
    engine.drop_booster(booster);
}

fn call_with_short_output(booster: &Booster) -> ErrorKind {
    let input = vec![vec![1.0, 2.0, 3.0, 4.0]];
    let call = booster.prediction(&input).unwrap().with_classes(2).unwrap();
    call.finish(vec![0.5]).unwrap_err().kind
}

#[test]
fn evaluation_steps() {
    let mut engine = Engine::new();
    let booster = engine.run(session_with_validation(5)).unwrap();
    assert_eq!(booster.eval_query(2).unwrap_err().kind, ErrorKind::Range);
    let query = booster.eval_query(1).unwrap();
    assert_eq!(query.handle(), booster.handle());
    assert_eq!(booster.eval_query(0).unwrap().name_buffers(2, 1, 8).unwrap_err().kind, ErrorKind::Protocol);
    let (mut buffers, pending) = query.name_buffers(2, 2, 16).unwrap();
    assert_eq!(buffers.len(), 2);
    buffers[0][..15].copy_from_slice(b"binary_logloss\0");
    buffers[1][..4].copy_from_slice(b"auc\0");
    let scores = pending.read_names(&buffers).unwrap();
    assert_eq!(scores.dataset_index(), 1);
    assert_eq!(scores.num_metrics(), 2);
    let results = scores.finish(&vec![0.3, 0.9], 2).unwrap();
    assert_eq!(results[0].metric_name, "binary_logloss");
    assert_eq!(results[1].metric_name, "auc");
    assert_eq!(results[1].score, 0.9);
    engine.drop_booster(booster);
}

#[test]
fn evaluation_score_count_mismatch() {
    let mut engine = Engine::new();
    let booster = engine.run(session_with_validation(5)).unwrap();
    let (mut buffers, pending) = booster.eval_query(0).unwrap().name_buffers(1, 1, 4).unwrap();
    buffers[0].copy_from_slice(b"auc\0");
    let scores = pending.read_names(&buffers).unwrap();
    assert_eq!(scores.finish(&vec![0.5], 2).unwrap_err().kind, ErrorKind::Protocol);
    let (_, pending) = booster.eval_query(0).unwrap().name_buffers(1, 1, 4).unwrap();
    assert_eq!(pending.read_names(&vec![]).unwrap_err().kind, ErrorKind::Protocol);
    engine.drop_booster(booster);
}

#[test]
fn duplicated_builders_differ_only_in_params() {
    let (x, y) = dummy_data_1();
    let (low, high) = Booster::builder().add_train_data(DataSet::from_mat(x, y)).duplicate();
    let mut a_params = simple_params(5);
    a_params.insert("data_random_seed".to_string(), ParamValue::Int(0));
    let mut b_params = simple_params(100);
    b_params.insert("metric".to_string(), ParamValue::Str("acc".to_string()));
    let mut ea = Engine::new();
    let mut eb = Engine::new();
    let a = ea.run(low.add_params(a_params).unwrap().fit()).unwrap();
    let b = eb.run(high.add_params(b_params).unwrap().fit()).unwrap();
    assert_eq!(ea.calls[0], eb.calls[0]);
    assert_ne!(ea.calls[2], eb.calls[2]);
    assert_eq!(ea.updates, 5);
    assert_eq!(eb.updates, 100);
    ea.drop_booster(a);
    eb.drop_booster(b);
}

#[test]
fn many_fit_and_drop_cycles_release_everything_once() {
    let mut engine = Engine::new();
    for i in 0..200 {
        let booster = engine.run(session_with_validation((i % 4) as i64)).unwrap();
        engine.drop_booster(booster);
    }
    assert!(engine.live.is_empty());
    let mut seen = engine.freed.clone();
    seen.sort();
    seen.dedup();
    assert_eq!(seen.len(), engine.freed.len());
}
