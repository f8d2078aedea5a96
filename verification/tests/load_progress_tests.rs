use inference_bridge::engine::process::{load_progress_signals, LoadMilestone};

#[test]
fn offload_reports_give_layer_counts() {
    let s = load_progress_signals("load_tensors: offloaded 49/49 layers to GPU");
    assert_eq!(s.offload, Some(("49".to_string(), "49".to_string())));
    let s = load_progress_signals("Offloaded 24 / 48 Layers to GPU");
    assert_eq!(s.offload, Some(("24".to_string(), "48".to_string())));
    assert_eq!(load_progress_signals("offloaded all layers").offload, None);
}

#[test]
fn percentages_and_milestones() {
    let s = load_progress_signals("loading: 50%");
    assert_eq!(s.percent, Some("50".to_string()));
    assert_eq!(load_progress_signals("done .12.5.% of it").percent, Some("12.5".to_string()));
    assert_eq!(load_progress_signals("x % y").percent, None);
    assert_eq!(
        load_progress_signals("load_tensors: loading model tensors, this can take a while...").milestone,
        Some(LoadMilestone::LoadingTensors)
    );
    assert_eq!(
        load_progress_signals("main: server is listening on 127.0.0.1:8080").milestone,
        Some(LoadMilestone::Ready)
    );
    let none = load_progress_signals("ggml_cuda_init: found 1 CUDA device");
    assert_eq!(none.milestone, None);
    assert_eq!(none.offload, None);
    assert_eq!(none.percent, None);
}
