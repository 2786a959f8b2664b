use airc::download::{
    ended, extracted_name, extraction_ended, file_error, DownloadMessage, DownloadProgress,
    DownloadStatus, FileStep, ReadStep, Receiving,
};
use airc::error::AircError;

#[test]
fn progress_is_cut_off_and_not_limited() {
    let mut d = DownloadProgress::new("f".to_string(), 3);
    assert_eq!(d.status, DownloadStatus::Starting);
    d.update_progress(2);
    assert_eq!(d.progress, 66);
    assert_eq!(d.current_size, 2);
    d.update_progress(6);
    assert_eq!(d.progress, 200);
    d.update_progress(3);
    assert_eq!(d.progress, 100);
    d.update_progress(u32::MAX);
    assert_eq!(d.progress, u16::MAX);
    assert_eq!(d.status, DownloadStatus::InProgress);
}

#[test]
fn a_download_without_bytes_keeps_its_percentage() {
    let mut d = DownloadProgress::new("f".to_string(), 0);
    d.update_progress(5);
    assert_eq!(d.progress, 0);
    d.mark_completed();
    assert_eq!(d.progress, 100);
    assert_eq!(d.status, DownloadStatus::Completed);
    d.mark_failed("x".to_string());
    assert_eq!(d.status, DownloadStatus::Failed("x".to_string()));
    d.mark_extracting();
    assert_eq!(d.status, DownloadStatus::Extracting);
}

#[test]
fn bytes_come_in_until_all_are_there() {
    let mut r = Receiving::new(100);
    assert!(matches!(r.on_read(60, 500_000_000), ReadStep::Write { report: None, complete: false }));
    assert!(matches!(r.on_read(39, 500_000_001), ReadStep::Write { report: Some(99), complete: false }));
    assert!(matches!(r.on_read(41, 0), ReadStep::Write { report: None, complete: true }));
    assert_eq!(r.received, 140);
    assert!(matches!(r.on_read(0, 900_000_000), ReadStep::Closed));
    assert_eq!(r.received, 140);
}

#[test]
fn the_end_of_a_download_is_reported() {
    let ok: Result<(), AircError> = Ok(());
    let err: Result<(), AircError> = Err(AircError::DccTransfer("lost".to_string()));
    let (message, extract) = ended("a.zip", &ok);
    assert!(matches!(message, DownloadMessage::Completed(f) if f == "a.zip"));
    assert!(extract);
    assert!(!ended("a.txt", &ok).1);
    let (message, extract) = ended("a.zip", &err);
    assert!(matches!(
        message,
        DownloadMessage::Failed(f, why) if f == "a.zip" && why == "DCC transfer error: lost"
    ));
    assert!(!extract);
}

#[test]
fn the_end_of_an_extraction_is_reported() {
    let err: Result<(), AircError> = Err(file_error(FileStep::OpenArchive, "gone"));
    assert!(matches!(
        extraction_ended("a.zip", &Ok(())),
        DownloadMessage::Extracted(f) if f == "a.zip"
    ));
    assert!(matches!(
        extraction_ended("a.zip", &err),
        DownloadMessage::Failed(_, why)
            if why == "Extraction failed: File operation error: Cannot open ZIP file: gone"
    ));
}

#[test]
fn each_file_step_has_its_words() {
    let say = |step| file_error(step, "w").message();
    assert_eq!(
        say(FileStep::CreateDirectory),
        "File operation error: Cannot create download directory: w"
    );
    assert_eq!(say(FileStep::CreateFile), "File operation error: Cannot create file: w");
    assert_eq!(say(FileStep::Write), "File operation error: Write error: w");
    assert_eq!(say(FileStep::Flush), "File operation error: Flush error: w");
    assert_eq!(say(FileStep::ReadArchive), "File operation error: Invalid ZIP file: w");
    assert_eq!(say(FileStep::ReadContent), "File operation error: Cannot access ZIP content: w");
    assert_eq!(say(FileStep::CreateOutput), "File operation error: Cannot create output file: w");
    assert_eq!(say(FileStep::Extract), "File operation error: Cannot extract file: w");
}

#[test]
fn extracted_files_lose_the_extension() {
    for name in
        ["book.zip", "a.b.zip", "..zip", "...zip", "a..zip", ".zip", "x.zip.zip", "\u{e9}.zip"]
    {
        let expected = std::path::Path::new(name).with_extension("");
        assert_eq!(extracted_name(name), expected.to_str().unwrap());
    }
    assert_eq!(extracted_name("book.epub.zip"), "book.epub");
    assert_eq!(extracted_name(".zip"), ".zip");
}
