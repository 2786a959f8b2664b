//! Per-download progress state behind the download gauges.
use vstd::prelude::*;

use crate::percent;
use crate::percent::percent_rounded;

verus! {

#[derive(Debug, Clone, PartialEq)]
pub enum DownloadStatus {
    Starting,
    InProgress,
    Completed,
    Failed(String),
    Extracting,
}

/// One download as its gauge shows it; `progress` is a percentage.
#[derive(Debug, Clone)]
pub struct DownloadProgress {
    pub filename: String,
    pub progress: u16,
    pub total_size: u64,
    pub current_size: u64,
    pub status: DownloadStatus,
}

/// The percentage of `total` that `current` is, rounded and never above a hundred.
pub open spec fn shown_percent(current: u64, total: u64) -> u16 {
    let percent = percent::rounded_percent(current as nat, total as nat);
    if percent > 100 {
        100
    } else {
        percent as u16
    }
}

impl DownloadProgress {
    pub fn new(filename: String, total_size: u64) -> (d: Self)
        ensures
            d == (DownloadProgress {
                filename,
                progress: 0,
                total_size,
                current_size: 0,
                status: DownloadStatus::Starting,
            }),
    {
        DownloadProgress {
            filename,
            progress: 0,
            total_size,
            current_size: 0,
            status: DownloadStatus::Starting,
        }
    }

    /// The state once `current_size` bytes have come; of a download without bytes the
    /// percentage stays.
    pub open spec fn updated(self, current_size: u64) -> DownloadProgress {
        DownloadProgress {
            current_size,
            progress: if self.total_size > 0 {
                shown_percent(current_size, self.total_size)
            } else {
                self.progress
            },
            status: DownloadStatus::InProgress,
            ..self
        }
    }

    pub open spec fn completed(self) -> DownloadProgress {
        DownloadProgress { status: DownloadStatus::Completed, progress: 100, ..self }
    }

    pub open spec fn failed(self, error: String) -> DownloadProgress {
        DownloadProgress { status: DownloadStatus::Failed(error), ..self }
    }

    pub open spec fn extracting(self) -> DownloadProgress {
        DownloadProgress { status: DownloadStatus::Extracting, ..self }
    }

    pub fn update_progress(&mut self, current_size: u64)
        ensures
            *final(self) == old(self).updated(current_size),
    {
        self.current_size = current_size;
        if self.total_size > 0 {
            let pct: u16 = percent_rounded(current_size, self.total_size);
            self.progress = if pct > 100 {
                100
            } else {
                pct
            };
        }
        self.status = DownloadStatus::InProgress;
    }

    pub fn mark_completed(&mut self)
        ensures
            *final(self) == old(self).completed(),
    {
        self.status = DownloadStatus::Completed;
        self.progress = 100;
    }

    pub fn mark_failed(&mut self, error: String)
        ensures
            *final(self) == old(self).failed(error),
    {
        self.status = DownloadStatus::Failed(error);
    }

    pub fn mark_extracting(&mut self)
        ensures
            *final(self) == old(self).extracting(),
    {
        self.status = DownloadStatus::Extracting;
    }
}

/// The gauge never goes above a hundred percent, whatever happens to a download.
pub proof fn law_progress_at_most_hundred(d: DownloadProgress, current: u64, error: String)
    requires
        d.progress <= 100,
    ensures
        d.updated(current).progress <= 100,
        d.completed().progress <= 100,
        d.failed(error).progress <= 100,
        d.extracting().progress <= 100,
{
}

/// When all bytes of a download have come, its gauge shows a hundred percent.
pub proof fn law_all_bytes_show_hundred(d: DownloadProgress)
    requires
        d.total_size > 0,
    ensures
        d.updated(d.total_size).progress == 100,
{
    percent::law_complete_is_hundred(d.total_size as nat);
}

/// The gauge never falls as bytes come: it depends on the two sizes alone, and of the same
/// total more bytes show no less.
pub proof fn law_progress_never_falls(d1: DownloadProgress, d2: DownloadProgress, c1: u64, c2: u64)
    requires
        d1.total_size == d2.total_size,
        d1.total_size > 0,
        c1 <= c2,
    ensures
        shown_percent(c1, d1.total_size) <= shown_percent(c2, d1.total_size),
        d1.updated(c1).progress <= d2.updated(c2).progress,
        c1 == c2 ==> d1.updated(c1).progress == d2.updated(c2).progress,
{
    percent::law_percentage_never_falls(c1 as nat, c2 as nat, d1.total_size as nat);
}

/// What happens to a download changes its gauge and its status, and never its name or size.
pub proof fn law_gauges_follow_the_download(d: DownloadProgress, current: u64, error: String)
    ensures
        d.updated(current) == (DownloadProgress {
            progress: d.updated(current).progress,
            current_size: current,
            status: DownloadStatus::InProgress,
            ..d
        }),
        d.total_size == 0 ==> d.updated(current).progress == d.progress,
        d.total_size > 0 && current >= d.total_size ==> d.updated(current).progress == 100,
        d.total_size > 0 && current == 0 ==> d.updated(current).progress == 0,
        d.completed() == (DownloadProgress {
            progress: 100,
            status: DownloadStatus::Completed,
            ..d
        }),
        d.failed(error) == (DownloadProgress { status: DownloadStatus::Failed(error), ..d }),
        d.extracting() == (DownloadProgress { status: DownloadStatus::Extracting, ..d }),
{
    if d.total_size > 0 {
        percent::law_nothing_is_zero(d.total_size as nat);
        percent::law_complete_is_hundred(d.total_size as nat);
        if current >= d.total_size {
            percent::law_percentage_never_falls(
                d.total_size as nat,
                current as nat,
                d.total_size as nat,
            );
        }
    }
}

/// The gauge shows the exact percentage, rounded to an integer, up to one part in two to the
/// 50th, and a hundred where more bytes have come than were announced.
pub proof fn law_gauges_are_exact(d: DownloadProgress, current: u64)
    requires
        d.total_size > 0,
    ensures
        ({
            let shown = d.updated(current).progress as nat;
            let total = d.total_size as nat;
            let k = 0x4_0000_0000_0000nat;
            &&& k * (2 * shown * total) <= (k + 1) * (200 * current as nat) + k * total
            &&& shown < 100 ==> k * (200 * current as nat) <= (k + 1) * ((2 * shown + 1) * total)
        }),
{
    let total = d.total_size as nat;
    let k = 0x4_0000_0000_0000nat;
    let shown = d.updated(current).progress as nat;
    let r = percent::rounded_percent(current as nat, total);
    percent::law_percentages_are_exact(current as nat, total);
    assert(k * (2 * shown * total) <= k * (2 * r * total)) by (nonlinear_arith)
        requires
            shown <= r,
    ;
}

}
