//! Downloads that report over messages: their state, how their bytes come in and what
//! becomes of an archive.
use vstd::prelude::*;

use crate::error::AircError;
use crate::percent;
use crate::percent::percent_truncated;
use crate::text::{glue2, same, strip_suffix};

verus! {

/// The size of the buffer that is read into.
pub const BUFFER_SIZE: usize = 8192;

/// Nanoseconds that must pass between two reports of progress.
pub const REPORT_INTERVAL_NS: u64 = 500_000_000;

#[derive(Debug, Clone)]
pub struct DownloadProgress {
    pub filename: String,
    pub progress: u16,
    pub total_size: u32,
    pub current_size: u32,
    pub status: DownloadStatus,
}

#[derive(Debug, Clone, PartialEq)]
pub enum DownloadStatus {
    Starting,
    InProgress,
    Completed,
    Failed(String),
    Extracting,
}

/// What a download reports.
#[derive(Debug, Clone)]
pub enum DownloadMessage {
    Started(String, u32),
    Progress(String, u32),
    Completed(String),
    Failed(String, String),
    Extracting(String),
    Extracted(String),
}

impl DownloadProgress {
    pub fn new(filename: String, total_size: u32) -> (d: Self)
        ensures
            d == (DownloadProgress {
                filename,
                progress: 0,
                total_size,
                current_size: 0,
                status: DownloadStatus::Starting,
            }),
    {
        DownloadProgress {
            filename,
            progress: 0,
            total_size,
            current_size: 0,
            status: DownloadStatus::Starting,
        }
    }

    /// The state once `current_size` bytes have come, with the percentage cut off to an
    /// integer; of a download without bytes the percentage stays.
    pub open spec fn updated(self, current_size: u32) -> DownloadProgress {
        DownloadProgress {
            current_size,
            progress: if self.total_size > 0 {
                percent::truncated_percent(current_size as nat, self.total_size as nat) as u16
            } else {
                self.progress
            },
            status: DownloadStatus::InProgress,
            ..self
        }
    }

    pub fn update_progress(&mut self, current_size: u32)
        ensures
            *final(self) == old(self).updated(current_size),
    {
        self.current_size = current_size;
        if self.total_size > 0 {
            self.progress = percent_truncated(current_size as u64, self.total_size as u64);
        }
        self.status = DownloadStatus::InProgress;
    }

    pub fn mark_completed(&mut self)
        ensures
            *final(self) == (DownloadProgress {
                status: DownloadStatus::Completed,
                progress: 100,
                ..*old(self)
            }),
    {
        self.status = DownloadStatus::Completed;
        self.progress = 100;
    }

    pub fn mark_failed(&mut self, error: String)
        ensures
            *final(self) == (DownloadProgress {
                status: DownloadStatus::Failed(error),
                ..*old(self)
            }),
    {
        self.status = DownloadStatus::Failed(error);
    }

    pub fn mark_extracting(&mut self)
        ensures
            *final(self) == (DownloadProgress {
                status: DownloadStatus::Extracting,
                ..*old(self)
            }),
    {
        self.status = DownloadStatus::Extracting;
    }
}

/// When all bytes of a download have come, it is at a hundred percent.
pub proof fn law_all_bytes_are_hundred_percent(d: DownloadProgress)
    requires
        d.total_size > 0,
    ensures
        d.updated(d.total_size).progress == 100,
{
    percent::law_complete_is_hundred(d.total_size as nat);
}

/// Bytes that come change the percentage, the size and the status, and never the name or the
/// total; more bytes are no smaller percentage.
pub proof fn law_progress_follows_the_bytes(d: DownloadProgress, c1: u32, c2: u32)
    ensures
        d.updated(c1) == (DownloadProgress {
            progress: d.updated(c1).progress,
            current_size: c1,
            status: DownloadStatus::InProgress,
            ..d
        }),
        d.total_size == 0 ==> d.updated(c1).progress == d.progress,
        d.total_size > 0 && c1 == 0 ==> d.updated(c1).progress == 0,
        d.total_size > 0 && c1 <= c2 ==> d.updated(c1).progress <= d.updated(c2).progress,
{
    if d.total_size > 0 {
        percent::law_nothing_is_zero(d.total_size as nat);
        if c1 <= c2 {
            percent::law_percentage_never_falls(c1 as nat, c2 as nat, d.total_size as nat);
        }
    }
}

/// The percentage of a download is the exact one, cut off to an integer, up to one part in
/// two to the 50th and up to the greatest number that its field holds.
pub proof fn law_progress_is_exact(d: DownloadProgress, current: u32)
    requires
        d.total_size > 0,
    ensures
        ({
            let p = d.updated(current).progress as nat;
            let total = d.total_size as nat;
            let k = 0x4_0000_0000_0000nat;
            &&& k * (p * total) <= (k + 1) * (100 * current as nat)
            &&& p < u16::MAX ==> k * (100 * current as nat) <= (k + 1) * ((p + 1) * total)
        }),
{
    percent::law_percentages_are_exact(current as nat, d.total_size as nat);
}

/// The bytes of a download coming in: `received` of the `expected` ones are there.
pub struct Receiving {
    pub expected: u32,
    pub received: u32,
}

/// What to do after a read: stop because the peer has closed the connection, or write the
/// bytes to the file, report the total where `report` holds it, and stop if `complete`.
pub enum ReadStep {
    Closed,
    Write { report: Option<u32>, complete: bool },
}

impl Receiving {
    pub fn new(expected: u32) -> (r: Receiving)
        ensures
            r == (Receiving { expected, received: 0 }),
    {
        Receiving { expected, received: 0 }
    }

    /// Takes note that `bytes_read` bytes have come, `elapsed_ns` nanoseconds after the
    /// last report of progress.
    pub fn on_read(&mut self, bytes_read: usize, elapsed_ns: u64) -> (step: ReadStep)
        requires
            old(self).received + bytes_read <= u32::MAX,
        ensures
            *final(self) == (Receiving {
                received: (old(self).received + bytes_read) as u32,
                ..*old(self)
            }),
            step == if bytes_read == 0 {
                ReadStep::Closed
            } else {
                ReadStep::Write {
                    report: if elapsed_ns > REPORT_INTERVAL_NS {
                        Some(final(self).received)
                    } else {
                        None
                    },
                    complete: final(self).received >= old(self).expected,
                }
            },
    {
        if bytes_read == 0 {
            return ReadStep::Closed;
        }
        self.received = self.received + bytes_read as u32;
        let report = if elapsed_ns > REPORT_INTERVAL_NS {
            Some(self.received)
        } else {
            None
        };
        ReadStep::Write { report, complete: self.received >= self.expected }
    }
}

/// The report on a download that has ended, and whether an archive is to be extracted.
pub fn ended(filename: &str, result: &Result<(), AircError>) -> (r: (DownloadMessage, bool))
    ensures
        match result {
            Ok(_) => {
                &&& r.0 matches DownloadMessage::Completed(f) && f@ == filename@
                &&& r.1 == ".zip"@.is_suffix_of(filename@)
            },
            Err(e) => {
                &&& r.0 matches DownloadMessage::Failed(f, why) && f@ == filename@ && why@
                    == e.text()
                &&& !r.1
            },
        },
{
    match result {
        Ok(_) => (
            DownloadMessage::Completed(filename.to_owned()),
            strip_suffix(filename, ".zip").is_some(),
        ),
        Err(e) => (DownloadMessage::Failed(filename.to_owned(), e.message()), false),
    }
}

/// The name of the file that the content of the archive named `filename` goes to, in the
/// directory of the archive: the name without its extension. A name that is all extension
/// stays, and from a dot with the extension only the letters are taken.
pub fn extracted_name(filename: &str) -> (name: String)
    requires
        ".zip"@.is_suffix_of(filename@),
        !filename@.contains('/'),
    ensures
        name@ == if filename@ == ".zip"@ {
            filename@
        } else if filename@ == "..zip"@ {
            ".."@
        } else {
            filename@.take(filename@.len() - 4)
        },
{
    proof {
        reveal_strlit(".zip");
    }
    if same(filename, ".zip") {
        return filename.to_owned();
    }
    if same(filename, "..zip") {
        return "..".to_owned();
    }
    match strip_suffix(filename, ".zip") {
        Some(stem) => stem.to_owned(),
        None => filename.to_owned(),
    }
}

/// The report on an extraction that has ended.
pub fn extraction_ended(filename: &str, result: &Result<(), AircError>) -> (message:
    DownloadMessage)
    ensures
        match result {
            Ok(_) => message matches DownloadMessage::Extracted(f) && f@ == filename@,
            Err(e) => message matches DownloadMessage::Failed(f, why) && f@ == filename@ && why@
                == "Extraction failed: "@ + e.text(),
        },
{
    match result {
        Ok(_) => DownloadMessage::Extracted(filename.to_owned()),
        Err(e) => DownloadMessage::Failed(
            filename.to_owned(),
            glue2("Extraction failed: ", e.message().as_str()),
        ),
    }
}

/// What failed while a download was written to disk or an archive extracted.
#[derive(Debug, Clone, Copy, PartialEq, Eq, Structural)]
pub enum FileStep {
    CreateDirectory,
    CreateFile,
    Write,
    Flush,
    OpenArchive,
    ReadArchive,
    ReadContent,
    CreateOutput,
    Extract,
}

impl FileStep {
    /// The words that stand before the reason.
    pub open spec fn text(self) -> Seq<char> {
        match self {
            FileStep::CreateDirectory => "Cannot create download directory: "@,
            FileStep::CreateFile => "Cannot create file: "@,
            FileStep::Write => "Write error: "@,
            FileStep::Flush => "Flush error: "@,
            FileStep::OpenArchive => "Cannot open ZIP file: "@,
            FileStep::ReadArchive => "Invalid ZIP file: "@,
            FileStep::ReadContent => "Cannot access ZIP content: "@,
            FileStep::CreateOutput => "Cannot create output file: "@,
            FileStep::Extract => "Cannot extract file: "@,
        }
    }
}

/// The error for a step that failed for the reason `why`.
pub fn file_error(step: FileStep, why: &str) -> (e: AircError)
    ensures
        e matches AircError::FileOperation(s) && s@ == step.text() + why@,
{
    let words = match step {
        FileStep::CreateDirectory => "Cannot create download directory: ",
        FileStep::CreateFile => "Cannot create file: ",
        FileStep::Write => "Write error: ",
        FileStep::Flush => "Flush error: ",
        FileStep::OpenArchive => "Cannot open ZIP file: ",
        FileStep::ReadArchive => "Invalid ZIP file: ",
        FileStep::ReadContent => "Cannot access ZIP content: ",
        FileStep::CreateOutput => "Cannot create output file: ",
        FileStep::Extract => "Cannot extract file: ",
    };
    AircError::FileOperation(glue2(words, why))
}

}
