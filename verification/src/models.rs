//! The data model of the downloader: file types, task states and settings,
//! with the rules that normalise user-supplied settings.

use vstd::prelude::*;
use std::collections::HashMap;

verus! {

/// An instant in UTC: whole seconds since the Unix epoch and the
/// nanoseconds within that second, as `chrono::DateTime<Utc>` splits it.
#[derive(Debug, Clone, Copy, PartialEq, Eq, Structural)]
pub struct UtcTimestamp {
    pub seconds: i64,
    pub nanos: u32,
}

/// Calls `chrono::Utc::now` and splits the instant into seconds and
/// nanoseconds. Its source builds the instant from the system clock's
/// duration since the Unix epoch (panicking before it), so the seconds are
/// never negative and the nanoseconds lie below one second. Which instant
/// comes back is the wall-clock time and is left unsaid.
#[verifier::external_body]
fn current_utc_time() -> (now: UtcTimestamp)
    ensures
        now.seconds >= 0,
        now.nanos < 1_000_000_000,
{
    let now = chrono::Utc::now();
    UtcTimestamp { seconds: now.timestamp(), nanos: now.timestamp_subsec_nanos() }
}

pub type DownloadId = String;

pub type RequestHeaders = HashMap<String, String>;

#[derive(Debug, Clone, Copy, PartialEq, Eq)]
pub enum FileType {
    Hls,
    Mp4,
    Mkv,
    Avi,
    Wmv,
    Flv,
    Webm,
    Mov,
    Rmvb,
}

impl Default for FileType {
    fn default() -> (r: Self)
        ensures
            r == FileType::Hls,
    {
        FileType::Hls
    }
}

/// Everything but an HLS playlist is fetched as a single file.
pub open spec fn spec_is_direct_download(ft: FileType) -> bool {
    !(ft is Hls)
}

/// The extension a direct download is saved with; none for a playlist.
pub open spec fn spec_default_extension(ft: FileType) -> Option<Seq<char>> {
    match ft {
        FileType::Hls => None,
        FileType::Mp4 => Some("mp4"@),
        FileType::Mkv => Some("mkv"@),
        FileType::Avi => Some("avi"@),
        FileType::Wmv => Some("wmv"@),
        FileType::Flv => Some("flv"@),
        FileType::Webm => Some("webm"@),
        FileType::Mov => Some("mov"@),
        FileType::Rmvb => Some("rmvb"@),
    }
}

impl FileType {
    pub fn is_direct_download(self) -> (r: bool)
        ensures
            r == spec_is_direct_download(self),
    {
        !matches!(self, FileType::Hls)
    }

    /// The file extension used when saving a direct download.
    pub fn default_extension(self) -> (r: Option<&'static str>)
        ensures
            r is None <==> spec_default_extension(self) is None,
            r matches Some(e) ==> spec_default_extension(self) == Some(e@),
            self is Mp4 ==> r == Some("mp4"),
            self is Mkv ==> r == Some("mkv"),
            self is Avi ==> r == Some("avi"),
            self is Wmv ==> r == Some("wmv"),
            self is Flv ==> r == Some("flv"),
            self is Webm ==> r == Some("webm"),
            self is Mov ==> r == Some("mov"),
            self is Rmvb ==> r == Some("rmvb"),
    {
        match self {
            FileType::Hls => None,
            FileType::Mp4 => Some("mp4"),
            FileType::Mkv => Some("mkv"),
            FileType::Avi => Some("avi"),
            FileType::Wmv => Some("wmv"),
            FileType::Flv => Some("flv"),
            FileType::Webm => Some("webm"),
            FileType::Mov => Some("mov"),
            FileType::Rmvb => Some("rmvb"),
        }
    }
}

/// A file type is downloaded directly exactly when it has an extension to
/// save it under.
pub proof fn lemma_direct_download_has_extension(ft: FileType)
    ensures
        spec_is_direct_download(ft) <==> spec_default_extension(ft) is Some,
{
}

#[derive(Debug, Clone)]
pub enum DownloadStatus {
    Pending,
    Downloading,
    Paused,
    Merging,
    Converting,
    Completed,
    Failed(String),
    Cancelled,
}

/// A download with everything needed to resume it. Segment durations are
/// kept as the bit patterns of the `f32` seconds they stand for.
#[derive(Debug, Clone)]
pub struct DownloadTask {
    pub id: DownloadId,
    pub url: String,
    pub filename: String,
    pub file_type: FileType,
    pub encryption_method: Option<String>,
    pub output_dir: String,
    pub extra_headers: Option<String>,
    pub status: DownloadStatus,
    pub total_segments: usize,
    pub completed_segments: usize,
    pub completed_segment_indices: Vec<usize>,
    pub failed_segment_indices: Vec<usize>,
    pub segment_uris: Vec<String>,
    pub segment_duration_bits: Vec<u32>,
    pub total_bytes: u64,
    pub speed_bytes_per_sec: u64,
    pub created_at: UtcTimestamp,
    pub completed_at: Option<UtcTimestamp>,
    pub updated_at: Option<UtcTimestamp>,
    pub file_path: Option<String>,
}

/// The latest of the timestamps a task carries: its last update if it has
/// one, else its completion, else its creation.
pub open spec fn spec_last_updated_at(task: DownloadTask) -> UtcTimestamp {
    match task.updated_at {
        Some(t) => t,
        None => match task.completed_at {
            Some(t) => t,
            None => task.created_at,
        },
    }
}

impl DownloadTask {
    /// Stamps the task with the current time and returns that time.
    pub fn touch(&mut self) -> (now: UtcTimestamp)
        ensures
            now.seconds >= 0,
            now.nanos < 1_000_000_000,
            *final(self) == (DownloadTask { updated_at: Some(now), ..*old(self) }),
    {
        let now = current_utc_time();
        self.updated_at = Some(now);
        now
    }

    pub fn last_updated_at(&self) -> (t: UtcTimestamp)
        ensures
            t == spec_last_updated_at(*self),
    {
        match self.updated_at {
            Some(t) => t,
            None => match self.completed_at {
                Some(t) => t,
                None => self.created_at,
            },
        }
    }
}

/// Right after a task is touched, its last update is the time it was
/// touched with.
pub proof fn lemma_touch_is_last_update(task: DownloadTask, now: UtcTimestamp)
    ensures
        spec_last_updated_at(DownloadTask { updated_at: Some(now), ..task }) == now,
{
}

#[derive(Debug)]
pub struct CreateDownloadParams {
    pub url: String,
    pub filename: Option<String>,
    pub output_dir: Option<String>,
    pub extra_headers: Option<String>,
    pub file_type: FileType,
}

#[derive(Debug, Clone)]
pub struct ProxySettings {
    pub enabled: bool,
    pub url: String,
}

/// The local proxy port that the common proxy clients listen on: 7890 on
/// macOS, 10808 elsewhere.
pub open spec fn spec_default_proxy_url(is_macos: bool) -> Seq<char> {
    if is_macos {
        "http://127.0.0.1:7890"@
    } else {
        "http://127.0.0.1:10808"@
    }
}

impl ProxySettings {
    /// The proxy settings a fresh installation starts with on the given
    /// platform: disabled, pointing at the usual local proxy port.
    pub fn default_for_platform(is_macos: bool) -> (s: ProxySettings)
        ensures
            !s.enabled,
            s.url@ == spec_default_proxy_url(is_macos),
    {
        let default_url = if is_macos {
            "http://127.0.0.1:7890"
        } else {
            "http://127.0.0.1:10808"
        };
        ProxySettings { enabled: false, url: default_url.to_string() }
    }
}

pub const DEFAULT_DOWNLOAD_CONCURRENCY: usize = 8;

pub const MIN_DOWNLOAD_CONCURRENCY: usize = 1;

pub const MAX_DOWNLOAD_CONCURRENCY: usize = 64;

pub const DEFAULT_DOWNLOAD_SPEED_LIMIT_KBPS: u64 = 0;

/// A concurrency setting moved into the supported range.
pub open spec fn spec_normalize_download_concurrency(value: usize) -> usize {
    if value < MIN_DOWNLOAD_CONCURRENCY {
        MIN_DOWNLOAD_CONCURRENCY
    } else if value > MAX_DOWNLOAD_CONCURRENCY {
        MAX_DOWNLOAD_CONCURRENCY
    } else {
        value
    }
}

pub fn normalize_download_concurrency(value: usize) -> (r: usize)
    ensures
        r == spec_normalize_download_concurrency(value),
{
    if value < MIN_DOWNLOAD_CONCURRENCY {
        MIN_DOWNLOAD_CONCURRENCY
    } else if value > MAX_DOWNLOAD_CONCURRENCY {
        MAX_DOWNLOAD_CONCURRENCY
    } else {
        value
    }
}

/// Every speed limit is accepted as given; 0 stands for "unlimited".
pub fn normalize_download_speed_limit_kbps(value: u64) -> (r: u64)
    ensures
        r == value,
{
    value
}

#[derive(Debug)]
pub struct AppSettings {
    pub default_download_dir: Option<String>,
    pub proxy: ProxySettings,
    pub download_concurrency: usize,
    pub download_speed_limit_kbps: u64,
    pub delete_ts_temp_dir_after_download: bool,
    pub convert_to_mp4: bool,
}

/// The settings after normalisation: the concurrency moved into range, the
/// rest as it was.
pub open spec fn spec_sanitized(s: AppSettings) -> AppSettings {
    AppSettings {
        download_concurrency: spec_normalize_download_concurrency(s.download_concurrency),
        ..s
    }
}

impl AppSettings {
    /// The settings of a fresh installation on the given platform.
    pub fn default_for_platform(is_macos: bool) -> (s: AppSettings)
        ensures
            s.default_download_dir is None,
            !s.proxy.enabled,
            s.proxy.url@ == spec_default_proxy_url(is_macos),
            s.download_concurrency == DEFAULT_DOWNLOAD_CONCURRENCY,
            s.download_speed_limit_kbps == DEFAULT_DOWNLOAD_SPEED_LIMIT_KBPS,
            s.delete_ts_temp_dir_after_download,
            s.convert_to_mp4,
    {
        AppSettings {
            default_download_dir: None,
            proxy: ProxySettings::default_for_platform(is_macos),
            download_concurrency: DEFAULT_DOWNLOAD_CONCURRENCY,
            download_speed_limit_kbps: DEFAULT_DOWNLOAD_SPEED_LIMIT_KBPS,
            delete_ts_temp_dir_after_download: true,
            convert_to_mp4: true,
        }
    }

    pub fn sanitize(&mut self)
        ensures
            *final(self) == spec_sanitized(*old(self)),
    {
        self.download_concurrency = normalize_download_concurrency(self.download_concurrency);
        self.download_speed_limit_kbps = normalize_download_speed_limit_kbps(
            self.download_speed_limit_kbps,
        );
    }
}

/// Normalising settings twice changes nothing more than normalising once.
pub proof fn lemma_sanitize_idempotent(s: AppSettings)
    ensures
        spec_sanitized(spec_sanitized(s)) == spec_sanitized(s),
{
}

/// A normalised concurrency lies in the supported range, and a value in that
/// range is kept as it is.
pub proof fn lemma_normalized_concurrency_in_range(value: usize)
    ensures
        MIN_DOWNLOAD_CONCURRENCY <= spec_normalize_download_concurrency(value)
            <= MAX_DOWNLOAD_CONCURRENCY,
        MIN_DOWNLOAD_CONCURRENCY <= value <= MAX_DOWNLOAD_CONCURRENCY
            ==> spec_normalize_download_concurrency(value) == value,
{
}

#[derive(Debug, Clone)]
pub struct EncryptionInfo {
    pub method: String,
    pub key_uri: String,
    pub iv: Option<String>,
    pub key_bytes: Vec<u8>,
}

#[derive(Debug, Clone, Copy, PartialEq, Eq)]
pub enum DownloadGroup {
    Active,
    History,
}

/// Tasks still in progress belong to the active list; finished, failed and
/// cancelled ones to the history.
pub open spec fn spec_download_group(status: DownloadStatus) -> DownloadGroup {
    match status {
        DownloadStatus::Pending
        | DownloadStatus::Downloading
        | DownloadStatus::Paused
        | DownloadStatus::Merging
        | DownloadStatus::Converting => DownloadGroup::Active,
        DownloadStatus::Completed
        | DownloadStatus::Failed(_)
        | DownloadStatus::Cancelled => DownloadGroup::History,
    }
}

pub fn download_group_for_status(status: &DownloadStatus) -> (g: DownloadGroup)
    ensures
        g == spec_download_group(*status),
{
    match status {
        DownloadStatus::Pending
        | DownloadStatus::Downloading
        | DownloadStatus::Paused
        | DownloadStatus::Merging
        | DownloadStatus::Converting => DownloadGroup::Active,
        DownloadStatus::Completed | DownloadStatus::Failed(_) | DownloadStatus::Cancelled => {
            DownloadGroup::History
        },
    }
}

#[derive(Debug, Clone)]
pub struct DownloadTaskSummary {
    pub id: DownloadId,
    pub filename: String,
    pub file_type: FileType,
    pub encryption_method: Option<String>,
    pub output_dir: String,
    pub status: DownloadStatus,
    pub total_segments: usize,
    pub completed_segments: usize,
    pub failed_segment_count: usize,
    pub total_bytes: u64,
    pub speed_bytes_per_sec: u64,
    pub created_at: String,
    pub completed_at: Option<String>,
    pub updated_at: String,
    pub file_path: Option<String>,
}

#[derive(Debug, Clone)]
pub struct DownloadTaskSegmentState {
    pub id: DownloadId,
    pub total_segments: usize,
    pub completed_segment_indices: Vec<usize>,
    pub failed_segment_indices: Vec<usize>,
    pub updated_at: String,
}

#[derive(Debug, Clone)]
pub struct DownloadCounts {
    pub active_count: usize,
    pub history_count: usize,
}

#[derive(Debug, Clone)]
pub struct DownloadTaskPage {
    pub items: Vec<DownloadTaskSummary>,
    pub total: usize,
    pub page: usize,
    pub page_size: usize,
}

#[derive(Debug, Clone, PartialEq, Eq)]
pub enum ResumeDownloadAction {
    Resume,
    ConfirmRestart,
}

#[derive(Debug, Clone)]
pub struct ResumeDownloadCheckResult {
    pub action: ResumeDownloadAction,
    pub downloaded_bytes: u64,
}

#[derive(Debug, Clone, PartialEq, Eq)]
pub enum PlaybackSourceKind {
    Hls,
    File,
}

#[derive(Debug, Clone, Copy, PartialEq, Eq)]
pub enum ChromiumBrowser {
    Chrome,
    Edge,
}

#[derive(Debug, Clone)]
pub struct OpenPlaybackSessionResponse {
    pub window_label: String,
    pub playback_url: String,
    pub playback_kind: PlaybackSourceKind,
    pub session_token: String,
    pub filename: String,
    pub status: DownloadStatus,
}

#[derive(Debug, Clone)]
pub struct ChromiumExtensionInstallResult {
    pub extension_path: String,
    pub manual_url: String,
}

#[derive(Debug, Clone)]
pub struct FirefoxExtensionInstallResult {
    pub extension_path: String,
    pub manual_url: String,
}

} // verus!
