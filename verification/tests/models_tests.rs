use downloader_core::models::{
    download_group_for_status, normalize_download_concurrency,
    normalize_download_speed_limit_kbps, AppSettings, DownloadGroup, DownloadStatus, DownloadTask,
    FileType, ProxySettings, UtcTimestamp, DEFAULT_DOWNLOAD_CONCURRENCY,
    DEFAULT_DOWNLOAD_SPEED_LIMIT_KBPS, MAX_DOWNLOAD_CONCURRENCY, MIN_DOWNLOAD_CONCURRENCY,
};

#[test]
fn app_settings_keeps_positive_download_speed_limit() {
    let mut settings = AppSettings {
        download_speed_limit_kbps: 1024,
        ..AppSettings::default_for_platform(false)
    };

    settings.sanitize();

    assert_eq!(settings.download_speed_limit_kbps, 1024);
}

#[test]
fn file_type_direct_download_variants_report_extensions() {
    let cases = [
        (FileType::Mp4, Some("mp4")),
        (FileType::Mkv, Some("mkv")),
        (FileType::Avi, Some("avi")),
        (FileType::Wmv, Some("wmv")),
        (FileType::Flv, Some("flv")),
        (FileType::Webm, Some("webm")),
        (FileType::Mov, Some("mov")),
        (FileType::Rmvb, Some("rmvb")),
    ];

    for (file_type, expected_extension) in cases {
        assert!(file_type.is_direct_download());
        assert_eq!(file_type.default_extension(), expected_extension);
    }

    assert!(!FileType::Hls.is_direct_download());
    assert_eq!(FileType::Hls.default_extension(), None);
}

#[test]
fn file_type_defaults_to_hls() {
    assert_eq!(FileType::default(), FileType::Hls);
}

#[test]
fn direct_download_exactly_when_an_extension_exists() {
    let all = [
        FileType::Hls,
        FileType::Mp4,
        FileType::Mkv,
        FileType::Avi,
        FileType::Wmv,
        FileType::Flv,
        FileType::Webm,
        FileType::Mov,
        FileType::Rmvb,
    ];
    for file_type in all {
        assert_eq!(file_type.is_direct_download(), file_type.default_extension().is_some());
    }
}

#[test]
fn default_settings_follow_the_platform() {
    let linux = AppSettings::default_for_platform(false);
    assert_eq!(linux.default_download_dir, None);
    assert!(!linux.proxy.enabled);
    assert_eq!(linux.proxy.url, "http://127.0.0.1:10808");
    assert_eq!(linux.download_concurrency, DEFAULT_DOWNLOAD_CONCURRENCY);
    assert_eq!(linux.download_speed_limit_kbps, DEFAULT_DOWNLOAD_SPEED_LIMIT_KBPS);
    assert!(linux.delete_ts_temp_dir_after_download);
    assert!(linux.convert_to_mp4);

    let mac = ProxySettings::default_for_platform(true);
    assert!(!mac.enabled);
    assert_eq!(mac.url, "http://127.0.0.1:7890");
}

#[test]
fn concurrency_is_clamped_into_range() {
    assert_eq!(normalize_download_concurrency(0), MIN_DOWNLOAD_CONCURRENCY);
    assert_eq!(normalize_download_concurrency(1), 1);
    assert_eq!(normalize_download_concurrency(8), 8);
    assert_eq!(normalize_download_concurrency(64), 64);
    assert_eq!(normalize_download_concurrency(65), MAX_DOWNLOAD_CONCURRENCY);
    assert_eq!(normalize_download_concurrency(usize::MAX), MAX_DOWNLOAD_CONCURRENCY);
}

#[test]
fn speed_limit_is_kept_as_given() {
    assert_eq!(normalize_download_speed_limit_kbps(0), 0);
    assert_eq!(normalize_download_speed_limit_kbps(u64::MAX), u64::MAX);
}

#[test]
fn sanitize_moves_concurrency_and_is_idempotent() {
    let mut settings = AppSettings {
        download_concurrency: 500,
        download_speed_limit_kbps: 0,
        ..AppSettings::default_for_platform(false)
    };
    settings.sanitize();
    assert_eq!(settings.download_concurrency, 64);
    assert_eq!(settings.download_speed_limit_kbps, 0);
    settings.sanitize();
    assert_eq!(settings.download_concurrency, 64);

    let mut zero = AppSettings {
        download_concurrency: 0,
        ..AppSettings::default_for_platform(false)
    };
    zero.sanitize();
    assert_eq!(zero.download_concurrency, 1);
}

#[test]
fn statuses_split_into_active_and_history() {
    let active = [
        DownloadStatus::Pending,
        DownloadStatus::Downloading,
        DownloadStatus::Paused,
        DownloadStatus::Merging,
        DownloadStatus::Converting,
    ];
    for status in active.iter() {
        assert_eq!(download_group_for_status(status), DownloadGroup::Active);
    }
    let history = [
        DownloadStatus::Completed,
        DownloadStatus::Failed("network".to_string()),
        DownloadStatus::Cancelled,
    ];
    for status in history.iter() {
        assert_eq!(download_group_for_status(status), DownloadGroup::History);
    }
}

fn sample_task() -> DownloadTask {
    DownloadTask {
        id: "task-1".to_string(),
        url: "https://example.com/index.m3u8".to_string(),
        filename: "video".to_string(),
        file_type: FileType::Hls,
        encryption_method: None,
        output_dir: "/tmp".to_string(),
        extra_headers: None,
        status: DownloadStatus::Pending,
        total_segments: 10,
        completed_segments: 0,
        completed_segment_indices: Vec::new(),
        failed_segment_indices: Vec::new(),
        segment_uris: Vec::new(),
        segment_duration_bits: Vec::new(),
        total_bytes: 0,
        speed_bytes_per_sec: 0,
        created_at: UtcTimestamp { seconds: 100, nanos: 0 },
        completed_at: None,
        updated_at: None,
        file_path: None,
    }
}

#[test]
fn last_updated_at_prefers_update_then_completion_then_creation() {
    let mut task = sample_task();
    assert_eq!(task.last_updated_at(), UtcTimestamp { seconds: 100, nanos: 0 });
    task.completed_at = Some(UtcTimestamp { seconds: 200, nanos: 5 });
    assert_eq!(task.last_updated_at(), UtcTimestamp { seconds: 200, nanos: 5 });
    task.updated_at = Some(UtcTimestamp { seconds: 150, nanos: 7 });
    assert_eq!(task.last_updated_at(), UtcTimestamp { seconds: 150, nanos: 7 });
}

#[test]
fn touch_stamps_the_task_and_becomes_its_last_update() {
    let mut task = sample_task();
    let now = task.touch();
    assert_eq!(task.updated_at, Some(now));
    assert_eq!(task.last_updated_at(), now);
    assert_eq!(task.created_at, UtcTimestamp { seconds: 100, nanos: 0 });
    assert!(now.seconds > 1_600_000_000);
    assert!(now.nanos < 1_000_000_000);
}
