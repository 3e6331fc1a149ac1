use blazecut::jobs::{
    cleanup_result, require_tools, tools_available, CommandError, KeyframeExtractionOptions,
    KeyframeJob,
};

#[test]
fn tools_need_both_binaries() {
    assert!(tools_available(true, true));
    assert!(!tools_available(false, true));
    assert!(!tools_available(true, false));
    assert!(!tools_available(false, false));
    assert!(require_tools(true, true).is_ok());
    assert!(matches!(require_tools(true, false), Err(CommandError::ToolMissing)));
    assert!(matches!(require_tools(false, true), Err(CommandError::ToolMissing)));
}

#[test]
fn cleanup_of_missing_directory_succeeds() {
    assert!(cleanup_result(false).is_ok());
    assert!(cleanup_result(true).is_ok());
}

#[test]
fn default_options() {
    let o = KeyframeExtractionOptions::default();
    assert_eq!(o.count, Some(10));
    assert_eq!(o.method.as_deref(), Some("uniform"));
    assert_eq!(o.output_dir, None);
    assert_eq!(o.output_format.as_deref(), Some("jpg"));
    assert_eq!(o.quality, Some(80));
    assert_eq!(o.width, None);
    assert_eq!(o.requested_count(), 10);
}

#[test]
fn requested_frame_count() {
    let mut o = KeyframeExtractionOptions::default();
    o.count = Some(4);
    assert_eq!(o.requested_count(), 4);
    o.count = Some(-3);
    assert_eq!(o.requested_count(), 0);
    o.count = None;
    assert_eq!(o.requested_count(), 10);
}

#[test]
fn job_writes_every_frame_in_order() {
    let mut job = KeyframeJob::new(120_000_000, 3);
    let mut seen = Vec::new();
    while let Some(q) = job.next_frame() {
        seen.push((q.index, q.at.numer / q.at.denom as u128));
        job.record(Ok(format!("frame_{}.jpg", q.index)));
    }
    assert_eq!(seen, vec![(1, 30_000_000), (2, 60_000_000), (3, 90_000_000)]);
    assert_eq!(
        job.finish().ok().unwrap(),
        vec!["frame_1.jpg", "frame_2.jpg", "frame_3.jpg"]
    );
}

#[test]
fn job_stops_at_first_failure() {
    let mut job = KeyframeJob::new(120_000_000, 3);
    let q = job.next_frame().unwrap();
    job.record(Ok(format!("frame_{}.jpg", q.index)));
    job.next_frame().unwrap();
    job.record(Err(CommandError::ExtractFailed));
    assert!(job.next_frame().is_none());
    assert!(matches!(job.finish(), Err(CommandError::ExtractFailed)));
}

#[test]
fn job_with_no_frames_answers_empty() {
    let job = KeyframeJob::new(5_000_000, 0);
    assert!(job.next_frame().is_none());
    assert!(job.finish().ok().unwrap().is_empty());
}
