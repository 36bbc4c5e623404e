use facepass_native::download::{derive_filename, finished_failure, finished_success,
    resolve_filename, DownloadJob};

#[test]
fn filename_comes_from_the_last_path_segment() {
    assert_eq!(derive_filename("https://host/models/face.onnx"), "face.onnx");
    assert_eq!(derive_filename("face.onnx"), "face.onnx");
}

#[test]
fn filename_drops_the_query_string() {
    assert_eq!(
        derive_filename("https://host/models/face.onnx?version=3&x=1"),
        "face.onnx"
    );
}

#[test]
fn filename_falls_back_to_the_default_when_empty() {
    assert_eq!(derive_filename("https://host/models/"), "model.onnx");
    assert_eq!(derive_filename(""), "model.onnx");
    assert_eq!(derive_filename("https://host/models/?x=1"), "model.onnx");
}

#[test]
fn collision_resolution_counts_from_one() {
    let existing: Vec<String> = vec![];
    assert_eq!(resolve_filename("model.onnx", &existing), "model.onnx");

    let existing = vec!["model.onnx".to_string()];
    assert_eq!(resolve_filename("model.onnx", &existing), "model (1).onnx");

    let existing = vec!["model.onnx".to_string(), "model (1).onnx".to_string()];
    assert_eq!(resolve_filename("model.onnx", &existing), "model (2).onnx");
}

#[test]
fn collision_resolution_takes_the_first_free_counter() {
    let existing = vec!["model.onnx".to_string(), "model (2).onnx".to_string()];
    assert_eq!(resolve_filename("model.onnx", &existing), "model (1).onnx");
}

#[test]
fn collision_resolution_splits_only_the_final_extension() {
    let existing = vec!["archive.tar.gz".to_string()];
    assert_eq!(resolve_filename("archive.tar.gz", &existing), "archive.tar (1).gz");
}

#[test]
fn collision_resolution_defaults_a_missing_extension() {
    let existing = vec!["weights".to_string()];
    assert_eq!(resolve_filename("weights", &existing), "weights (1).onnx");
}

#[test]
fn download_progress_is_monotone_and_sums_the_chunks() {
    let mut job = DownloadJob::new(
        "https://host/m.onnx".to_string(),
        "/data/models/m.onnx".to_string(),
    );
    job.set_total(Some(400));
    let chunks: [u64; 4] = [100, 50, 0, 250];
    let mut last_downloaded = 0u64;
    let mut last_percent = 0u64;
    for len in chunks {
        job.record_chunk(len);
        let e = job.progress_event();
        assert!(e.downloaded >= last_downloaded);
        assert!(e.progress >= last_percent);
        last_downloaded = e.downloaded;
        last_percent = e.progress;
    }
    assert_eq!(last_downloaded, 400);
    assert_eq!(last_percent, 100);
}

#[test]
fn progress_percent_is_zero_while_the_total_is_unknown() {
    let mut job = DownloadJob::new("u".to_string(), "p".to_string());
    job.record_chunk(512);
    assert_eq!(job.progress_percent(), 0);
    job.set_total(Some(0));
    assert_eq!(job.progress_percent(), 0);
}

#[test]
fn progress_percent_is_capped_at_one_hundred() {
    let mut job = DownloadJob::new("u".to_string(), "p".to_string());
    job.set_total(Some(100));
    job.record_chunk(250);
    assert_eq!(job.progress_percent(), 100);
}

#[test]
fn progress_percent_truncates_partial_shares() {
    let mut job = DownloadJob::new("u".to_string(), "p".to_string());
    job.set_total(Some(300));
    job.record_chunk(100);
    assert_eq!(job.progress_percent(), 33);
}

#[test]
fn finished_event_carries_exactly_one_of_path_and_error() {
    let ok = finished_success("u".to_string(), "/data/models/m.onnx".to_string());
    assert_eq!(ok.path.as_deref(), Some("/data/models/m.onnx"));
    assert!(ok.error.is_none());

    let err = finished_failure("u".to_string(), "Request failed: timed out".to_string());
    assert!(err.path.is_none());
    assert_eq!(err.error.as_deref(), Some("Request failed: timed out"));
}
