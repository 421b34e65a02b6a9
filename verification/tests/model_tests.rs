use whisper_desktop::model::{
    check_status, download_plan, download_url, find_model, model_file, model_infos, models,
    DownloadTracker, ModelError,
};

#[test]
fn catalog_lists_three_models_lightest_first() {
    let m = models();
    assert_eq!(m.len(), 3);
    assert_eq!(m[0].id, "tiny");
    assert_eq!(m[1].id, "base");
    assert_eq!(m[2].id, "small");
    assert_eq!(m[0].file, "ggml-tiny.bin");
    assert_eq!(m[1].file, "ggml-base.bin");
    assert_eq!(m[2].file, "ggml-small.bin");
    assert_eq!(m[0].approx_mb, 75);
    assert_eq!(m[1].approx_mb, 142);
    assert_eq!(m[2].approx_mb, 466);
    assert_eq!(m[1].label, "Base（標準・推奨）");
    assert_eq!(m[2].note, "日本語の精度を重視する場合");
}

#[test]
fn find_model_finds_each_catalog_entry() {
    for def in models() {
        let found = find_model(def.id).expect("catalog id must be found");
        assert_eq!(found.id, def.id);
        assert_eq!(found.file, def.file);
        assert_eq!(found.label, def.label);
        assert_eq!(found.approx_mb, def.approx_mb);
    }
}

#[test]
fn find_model_rejects_unknown_ids() {
    assert!(find_model("large").is_none());
    assert!(find_model("").is_none());
    assert!(find_model("Base").is_none());
    assert!(find_model("base ").is_none());
}

#[test]
fn model_file_names_the_file_or_the_unknown_id() {
    assert_eq!(model_file("small").ok(), Some("ggml-small.bin"));
    match model_file("medium") {
        Err(e) => {
            assert!(matches!(e, ModelError::UnknownModel(ref d) if d == "medium"));
            assert_eq!(e.message(), "未知のモデル: medium");
        }
        Ok(_) => panic!("unknown model accepted"),
    }
}

#[test]
fn download_url_points_at_the_model_file() {
    let def = find_model("tiny").unwrap();
    assert_eq!(
        download_url(&def),
        "https://huggingface.co/ggerganov/whisper.cpp/resolve/main/ggml-tiny.bin"
    );
}

#[test]
fn model_error_messages() {
    assert_eq!(
        ModelError::HttpStatus("404 Not Found".to_string()).message(),
        "ダウンロード失敗 (HTTP 404 Not Found)"
    );
    assert_eq!(ModelError::Receive("eof".to_string()).message(), "受信エラー: eof");
    assert_eq!(
        ModelError::DataDir("x".to_string()).message(),
        "データディレクトリを取得できません: x"
    );
    assert_eq!(ModelError::Finalize("y".to_string()).message(), "ファイル確定に失敗: y");
    assert_eq!(ModelError::Flush("z".to_string()).message(), "フラッシュ失敗: z");
}

#[test]
fn tracker_reports_every_megabyte_and_at_completion() {
    let mut t = DownloadTracker::new("base", Some(2_500_000));
    assert!(t.on_chunk(400_000).is_none());
    assert!(t.on_chunk(500_000).is_none());
    let p = t.on_chunk(200_000).expect("1.1 MB since the last report");
    assert_eq!(p.model, "base");
    assert_eq!(p.downloaded, 1_100_000);
    assert_eq!(p.total, 2_500_000);
    assert!(t.on_chunk(899_999).is_none());
    assert!(t.on_chunk(1).is_none());
    let p = t.on_chunk(100_000).expect("exactly one interval since the last report");
    assert_eq!(p.downloaded, 2_100_000);
    let p = t.on_chunk(400_000).expect("completion is always reported");
    assert_eq!(p.downloaded, 2_500_000);
    assert_eq!(t.downloaded(), 2_500_000);
}

#[test]
fn tracker_without_announced_size_counts_from_zero() {
    let mut t = DownloadTracker::new("tiny", None);
    let p = t.on_chunk(0).expect("zero bytes equal the unknown total of 0");
    assert_eq!(p.total, 0);
    assert_eq!(p.downloaded, 0);
    assert!(t.on_chunk(10).is_none());
    assert_eq!(t.downloaded(), 10);
}

#[test]
fn model_infos_follow_the_catalog() {
    let infos = model_infos(&vec![false, true, false]);
    assert_eq!(infos.len(), 3);
    assert_eq!(infos[0].id, "tiny");
    assert!(!infos[0].installed);
    assert_eq!(infos[1].id, "base");
    assert_eq!(infos[1].label, "Base（標準・推奨）");
    assert_eq!(infos[1].approx_mb, 142);
    assert_eq!(infos[1].note, "速度と精度のバランス");
    assert!(infos[1].installed);
    assert!(!infos[2].installed);
}

#[test]
fn download_plan_skips_present_files() {
    let def = find_model("small").unwrap();
    assert!(download_plan(&def, true).is_none());
    assert_eq!(
        download_plan(&def, false).unwrap(),
        "https://huggingface.co/ggerganov/whisper.cpp/resolve/main/ggml-small.bin"
    );
}

#[test]
fn only_successful_statuses_pass() {
    assert!(check_status(true, "200 OK").is_ok());
    let e = check_status(false, "503 Service Unavailable").err().unwrap();
    assert_eq!(e.message(), "ダウンロード失敗 (HTTP 503 Service Unavailable)");
}

#[test]
fn reports_over_a_whole_download() {
    let chunks = [300_000usize, 800_000, 50_000, 999_999, 1_000_000, 0, 150_001];
    let total: u64 = chunks.iter().map(|&c| c as u64).sum();
    let mut t = DownloadTracker::new("tiny", Some(total));
    let mut so_far = 0u64;
    let mut last = 0u64;
    let mut reports = Vec::new();
    for c in chunks {
        so_far += c as u64;
        if let Some(p) = t.on_chunk(c) {
            assert_eq!(p.model, "tiny");
            assert_eq!(p.total, total);
            assert_eq!(p.downloaded, so_far);
            assert!(p.downloaded >= last);
            last = p.downloaded;
            reports.push(p.downloaded);
        }
    }
    assert_eq!(reports, vec![1_100_000, 2_149_999, 3_149_999, 3_300_000]);
}

#[test]
fn progress_values_can_be_cloned() {
    let mut t = DownloadTracker::new("base", Some(5));
    let p = t.on_chunk(5).unwrap();
    let q = p.clone();
    assert_eq!(q.model, "base");
    assert_eq!(q.downloaded, 5);
    assert_eq!(q.total, 5);
}
