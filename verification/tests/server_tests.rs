use ort_superserve::server::{
    download_succeeded, model_file_name, new_model_file_name, resolve_input_name, resolve_output_name,
    TensorNameError,
};

#[test]
fn configured_names_take_precedence() {
    let inputs = vec!["data".to_string()];
    let outputs = vec!["prob".to_string()];
    assert_eq!(resolve_input_name(&Some("input".to_string()), &inputs).unwrap(), "input");
    assert_eq!(resolve_output_name(&Some("output".to_string()), &outputs).unwrap(), "output");
}

#[test]
fn first_declared_names_are_used_otherwise() {
    let inputs = vec!["data".to_string(), "mask".to_string()];
    let outputs = vec!["prob".to_string()];
    assert_eq!(resolve_input_name(&None, &inputs).unwrap(), "data");
    assert_eq!(resolve_output_name(&None, &outputs).unwrap(), "prob");
}

#[test]
fn models_without_tensors_are_refused() {
    let e = resolve_input_name(&None, &vec![]).unwrap_err();
    assert_eq!(e, TensorNameError::NoInputs);
    assert_eq!(e.message(), "Model has no inputs");
    let e = resolve_output_name(&None, &vec![]).unwrap_err();
    assert_eq!(e, TensorNameError::NoOutputs);
    assert_eq!(e.message(), "Model has no outputs");
}

#[test]
fn model_file_name_wraps_the_identifier() {
    assert_eq!(model_file_name("abc"), "ort-superserve-model-abc.onnx");
}

#[test]
fn new_model_file_names_hold_a_fresh_uuid() {
    let a = new_model_file_name();
    let b = new_model_file_name();
    assert_ne!(a, b);
    let id = a.strip_prefix("ort-superserve-model-").unwrap().strip_suffix(".onnx").unwrap();
    assert_eq!(id.len(), 36);
    for (i, c) in id.chars().enumerate() {
        if i == 8 || i == 13 || i == 18 || i == 23 {
            assert_eq!(c, '-');
        } else {
            assert!(c.is_ascii_digit() || ('a'..='f').contains(&c));
        }
    }
}

#[test]
fn download_status_success_range() {
    assert!(!download_succeeded(199));
    assert!(download_succeeded(200));
    assert!(download_succeeded(299));
    assert!(!download_succeeded(300));
    assert!(!download_succeeded(404));
}
