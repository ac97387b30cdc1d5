use lightgbm::dataset::frame_to_mat;
use lightgbm::matrix::{check_dimensions, flatten, matrix_shape, reshape, MAX_DIMENSION};
use lightgbm::{Column, DataSet, ErrorKind, Frame, LoadRequest};

fn column(name: &str, values: &[f64]) -> Column<f64> {
    Column { name: name.to_string(), values: values.iter().map(|v| Some(*v)).collect() }
}

fn table() -> Frame<f64> {
    Frame {
        columns: vec![
            column("feature_1", &[1.0, 0.7, 0.9, 0.2, 0.1]),
            column("feature_2", &[0.1, 0.4, 0.8, 0.2, 0.7]),
            column("feature_3", &[0.2, 0.5, 0.5, 0.1, 0.1]),
            column("feature_4", &[0.1, 0.1, 0.1, 0.7, 0.9]),
            column("label", &[0.0, 0.0, 0.0, 1.0, 1.0]),
        ],
    }
}

fn dummy_data() -> (Vec<Vec<f64>>, Vec<f64>) {
    let data = vec![
        vec![1.0, 0.1, 0.2, 0.1],
        vec![0.7, 0.4, 0.5, 0.1],
        vec![0.9, 0.8, 0.5, 0.1],
        vec![0.2, 0.2, 0.8, 0.7],
        vec![0.1, 0.7, 1.0, 0.9],
    ];
    let label = vec![0.0, 0.0, 0.0, 1.0, 1.0];
    (data, label)
}

#[test]
fn simple_df() {
    let df = table();
    let label_column = "label";
    let (x, y) = frame_to_mat(&df, label_column).unwrap();

    let recovered_feature: Vec<f64> =
        df.columns[0].values.iter().map(|o| o.unwrap()).collect();

    assert_eq!(recovered_feature[0], x[0][0]);
    assert_eq!(y, vec![0.0, 0.0, 0.0, 1.0, 1.0]);
}

#[test]
fn frame_rows_follow_column_order() {
    let (x, y) = frame_to_mat(&table(), "feature_2").unwrap();
    assert_eq!(x.len(), 5);
    assert_eq!(x[1], vec![0.7, 0.5, 0.1, 0.0]);
    assert_eq!(y, vec![0.1, 0.4, 0.8, 0.2, 0.7]);
}

#[test]
fn frame_without_label_column() {
    let e = frame_to_mat(&table(), "target").unwrap_err();
    assert_eq!(e.kind, ErrorKind::Configuration);
}

#[test]
fn frame_with_missing_cell() {
    let mut df = table();
    df.columns[2].values[3] = None;
    assert_eq!(frame_to_mat(&df, "label").unwrap_err().kind, ErrorKind::Configuration);
    let mut df = table();
    df.columns[4].values[0] = None;
    assert_eq!(frame_to_mat(&df, "label").unwrap_err().kind, ErrorKind::Configuration);
}

#[test]
fn frame_with_short_column() {
    let mut df = table();
    df.columns[1].values.pop();
    assert_eq!(frame_to_mat(&df, "label").unwrap_err().kind, ErrorKind::Dimension);
}

#[test]
fn matrix_is_flattened_row_major() {
    let m = vec![vec![1, 2, 3], vec![4, 5, 6]];
    assert_eq!(flatten(&m), vec![1, 2, 3, 4, 5, 6]);
    assert_eq!(matrix_shape(&m).unwrap(), (2, 3));
}

#[test]
fn empty_and_ragged_matrices_refused() {
    let empty: Vec<Vec<f64>> = vec![];
    assert_eq!(matrix_shape(&empty).unwrap_err().kind, ErrorKind::Dimension);
    let no_columns: Vec<Vec<f64>> = vec![vec![]];
    assert_eq!(matrix_shape(&no_columns).unwrap_err().kind, ErrorKind::Dimension);
    let ragged = vec![vec![1.0, 2.0], vec![3.0]];
    assert_eq!(matrix_shape(&ragged).unwrap_err().kind, ErrorKind::Dimension);
}

#[test]
fn dimensions_beyond_engine_width() {
    assert_eq!(check_dimensions(MAX_DIMENSION, MAX_DIMENSION).unwrap(), (i32::MAX, i32::MAX));
    let e = check_dimensions(MAX_DIMENSION + 1, 4).unwrap_err();
    assert_eq!(e.kind, ErrorKind::Dimension);
    assert_eq!(
        e.desc,
        "received a matrix of size 2147483648x4, but at most 2147483647x2147483647 is supported"
    );
    assert_eq!(check_dimensions(5, MAX_DIMENSION + 1).unwrap_err().kind, ErrorKind::Dimension);
}

#[test]
fn multiclass_output_reshaped() {
    let out = vec![1, 2, 3, 4, 5, 6];
    assert_eq!(reshape(out.clone(), 3), vec![vec![1, 2, 3], vec![4, 5, 6]]);
    assert_eq!(reshape(out.clone(), 1), vec![out.clone()]);
    assert_eq!(reshape(out.clone(), 0), vec![out]);
}

#[test]
fn well_formed_matrix_load_request() {
    let (x, y) = dummy_data();
    let ds = DataSet::from_mat(x, y.clone());
    match ds.load_request(None).unwrap() {
        LoadRequest::Matrix { data, rows, cols, labels, params, reference } => {
            assert_eq!(rows, 5);
            assert_eq!(cols, 4);
            assert_eq!(data.len(), 20);
            assert_eq!(data[4..8], [0.7, 0.4, 0.5, 0.1]);
            assert_eq!(labels, y);
            assert_eq!(params, "");
            assert_eq!(reference, None);
        }
        LoadRequest::File { .. } => panic!("expected a matrix request"),
    }
}

#[test]
fn label_count_must_match_rows() {
    let (x, _) = dummy_data();
    let ds = DataSet::from_mat(x, vec![0.0, 1.0]);
    assert_eq!(ds.load_request(None).unwrap_err().kind, ErrorKind::Configuration);
}

#[test]
fn ragged_dataset_refused() {
    let ds = DataSet::from_mat(vec![vec![1.0, 2.0], vec![3.0]], vec![0.0, 1.0]);
    assert_eq!(ds.load_request(None).unwrap_err().kind, ErrorKind::Dimension);
}

#[test]
fn file_request_passes_path_and_reference() {
    let ds: DataSet<f64> = DataSet::from_file("some/file.txt".to_string());
    match ds.load_request(Some(77)).unwrap() {
        LoadRequest::File { path, params, reference } => {
            assert_eq!(path, "some/file.txt");
            assert_eq!(params, "");
            assert_eq!(reference, Some(77));
        }
        LoadRequest::Matrix { .. } => panic!("expected a file request"),
    }
}

#[test]
fn frame_dataset_request() {
    let ds = DataSet::from_data_frame(table(), "label".to_string());
    match ds.load_request(Some(3)).unwrap() {
        LoadRequest::Matrix { data, rows, cols, labels, .. } => {
            assert_eq!((rows, cols), (5, 4));
            assert_eq!(data[0..4], [1.0, 0.1, 0.2, 0.1]);
            assert_eq!(labels, vec![0.0, 0.0, 0.0, 1.0, 1.0]);
        }
        LoadRequest::File { .. } => panic!("expected a matrix request"),
    }
}

#[test]
fn copy_is_independent_and_equal() {
    let (x, y) = dummy_data();
    let ds = DataSet::from_mat(x, y);
    let copy = ds.copy();
    drop(ds);
    match copy.load_request(None).unwrap() {
        LoadRequest::Matrix { rows, labels, .. } => {
            assert_eq!(rows, 5);
            assert_eq!(labels, vec![0.0, 0.0, 0.0, 1.0, 1.0]);
        }
        LoadRequest::File { .. } => panic!("expected a matrix request"),
    }
}
