use ableton_samples::descriptor::AbletonProject;
use ableton_samples::snapshot::plan_copies;

fn project(samples: &[&str]) -> AbletonProject {
    AbletonProject {
        project_dir: "/P".to_string(),
        samples: samples.iter().map(|s| s.to_string()).collect(),
    }
}

fn pairs(p: &AbletonProject, present: &[bool]) -> Vec<(String, String)> {
    plan_copies(p, &present.to_vec())
        .ok()
        .unwrap()
        .into_iter()
        .map(|c| (c.source, c.dest))
        .collect()
}

#[test]
fn present_sample_is_copied_below_snapshot_root() {
    let p = project(&["Samples/kick.wav"]);
    assert_eq!(pairs(&p, &[true]), vec![("Samples/kick.wav".to_string(), "kick.wav".to_string())]);
}

#[test]
fn missing_sample_is_skipped_without_error() {
    let p = project(&["Samples/a/hat.wav", "Samples/kick.wav"]);
    assert_eq!(pairs(&p, &[false, true]), vec![("Samples/kick.wav".to_string(), "kick.wav".to_string())]);
}

#[test]
fn missing_sample_outside_root_is_no_error() {
    let p = project(&["Other/x.wav"]);
    assert!(pairs(&p, &[false]).is_empty());
}

#[test]
fn present_sample_outside_root_fails() {
    let p = project(&["Other/x.wav", "Samples/y.wav"]);
    let err = plan_copies(&p, &vec![true, true]).err().unwrap();
    assert_eq!(err.sample, "Other/x.wav");
}

#[test]
fn nested_directories_are_kept() {
    let p = project(&["Samples/drums/kick.wav"]);
    assert_eq!(pairs(&p, &[true])[0].1, "drums/kick.wav");
}

#[test]
fn repeated_separator_is_skipped() {
    let p = project(&["Samples//kick.wav"]);
    assert_eq!(pairs(&p, &[true])[0].1, "kick.wav");
}

#[test]
fn second_plan_equals_first() {
    let p = project(&["Samples/a.wav", "Samples/b/c.flac"]);
    assert_eq!(pairs(&p, &[true, true]), pairs(&p, &[true, true]));
    assert_eq!(pairs(&p, &[true, true]).len(), 2);
}

#[test]
fn prefix_must_be_a_whole_segment() {
    let p = project(&["SamplesX/a.wav"]);
    assert!(plan_copies(&p, &vec![true]).is_err());
}

#[test]
fn current_directory_prefix_is_under_root() {
    let p = project(&["./Samples/a.wav"]);
    assert_eq!(pairs(&p, &[true])[0].1, "a.wav");
}

#[test]
fn dot_segments_are_dropped_from_destination() {
    let p = project(&["Samples/./drums//kick.wav"]);
    assert_eq!(pairs(&p, &[true])[0].1, "drums/kick.wav");
}

#[test]
fn parent_segment_fails() {
    let p = project(&["Samples/../x.wav"]);
    let err = plan_copies(&p, &vec![true]).err().unwrap();
    assert_eq!(err.sample, "Samples/../x.wav");
}

#[test]
fn absolute_sample_fails() {
    let p = project(&["/Samples/x.wav"]);
    assert!(plan_copies(&p, &vec![true]).is_err());
}

#[test]
fn failure_keeps_earlier_copies() {
    let p = project(&["Samples/a.wav", "Samples/b/c.wav", "Zzz/d.wav", "Samples/e.wav"]);
    let err = plan_copies(&p, &vec![true, false, true, true]).err().unwrap();
    assert_eq!(err.sample, "Zzz/d.wav");
    let copied: Vec<String> = err.copied.into_iter().map(|c| c.dest).collect();
    assert_eq!(copied, vec!["a.wav".to_string()]);
}
