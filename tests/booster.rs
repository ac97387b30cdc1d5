use lightgbm::booster::{
    check_eval_counts, check_eval_scores, check_num_classes, decode_name, decode_names, name_buffers,
    output_len, zip_eval_results,
};
use lightgbm::ErrorKind;

#[test]
fn eval_counts_must_agree() {
    assert_eq!(check_eval_counts(2, 2).unwrap(), 2);
    assert_eq!(check_eval_counts(1, 2).unwrap_err().kind, ErrorKind::Protocol);
    assert_eq!(check_eval_counts(-1, -1).unwrap_err().kind, ErrorKind::Protocol);
}

#[test]
fn name_buffers_are_zeroed() {
    let b = name_buffers(2, 5);
    assert_eq!(b, vec![vec![0u8; 5], vec![0u8; 5]]);
}

#[test]
fn names_are_cut_at_first_zero() {
    let buf = b"auc\0xx\0".to_vec();
    assert_eq!(decode_name(&buf).unwrap(), "auc");
    let buf = b"\0".to_vec();
    assert_eq!(decode_name(&buf).unwrap(), "");
}

#[test]
fn name_without_terminator() {
    assert_eq!(decode_name(&b"auc".to_vec()).unwrap_err().kind, ErrorKind::Protocol);
}

#[test]
fn name_not_utf8() {
    assert_eq!(decode_name(&vec![0xff, 0xfe, 0]).unwrap_err().kind, ErrorKind::Encoding);
}

#[test]
fn score_count_must_match() {
    assert!(check_eval_scores(2, 2).is_ok());
    assert_eq!(check_eval_scores(1, 2).unwrap_err().kind, ErrorKind::Protocol);
    assert_eq!(check_eval_scores(-1, 2).unwrap_err().kind, ErrorKind::Protocol);
}

#[test]
fn results_pair_names_and_scores() {
    let r = zip_eval_results(vec!["binary_logloss".to_string(), "auc".to_string()], &vec![0.5, 0.75]);
    assert_eq!(r.len(), 2);
    assert_eq!(r[0].metric_name, "binary_logloss");
    assert_eq!(r[0].score, 0.5);
    assert_eq!(r[1].metric_name, "auc");
    assert_eq!(r[1].score, 0.75);
}

#[test]
fn class_count_checked() {
    assert_eq!(check_num_classes(3).unwrap(), 3);
    assert_eq!(check_num_classes(0).unwrap(), 0);
    assert_eq!(check_num_classes(-1).unwrap_err().kind, ErrorKind::Protocol);
}

#[test]
fn output_length_is_rows_times_classes() {
    assert_eq!(output_len(5, 3).unwrap(), 15);
    assert_eq!(output_len(i32::MAX, i32::MAX).unwrap(), (i32::MAX as usize) * (i32::MAX as usize));
}

#[test]
fn names_read_in_order() {
    let bufs = vec![b"binary_logloss\0\0".to_vec(), b"auc\0".to_vec()];
    let names = decode_names(&bufs).unwrap();
    assert_eq!(names, vec!["binary_logloss".to_string(), "auc".to_string()]);
    let bad = vec![b"auc\0".to_vec(), b"xyz".to_vec(), vec![0xff, 0]];
    assert_eq!(decode_names(&bad).unwrap_err().kind, ErrorKind::Protocol);
}
