use ableton_samples::descriptor::parse_project;
use ableton_samples::snapshot::plan_copies;
use ableton_samples::history::{files_to_stage, Action, CommitPipeline, Event, Stage, WalkEntry};

fn entry(path: &str, is_file: bool) -> WalkEntry {
    WalkEntry { path: path.to_string(), is_file }
}

#[test]
fn metadata_and_directories_are_not_staged() {
    let entries = vec![
        entry("", false),
        entry("kick.wav", true),
        entry(".git", false),
        entry(".git/HEAD", true),
        entry(".gitattributes", true),
        entry("drums", false),
        entry("drums/hat.wav", true),
    ];
    assert_eq!(files_to_stage(&entries), vec!["kick.wav", ".gitattributes", "drums/hat.wav"]);
}

#[test]
fn fresh_run_makes_two_commits() {
    let mut p = CommitPipeline::new(vec!["kick.wav".to_string()]);
    let mut commits = Vec::new();
    let events = vec![Event::Opened(None), Event::Staged, Event::Committed(vec![1]), Event::Written, Event::Staged, Event::Committed(vec![2])];
    let mut last_staged = Vec::new();
    let mut written = None;
    for e in events {
        match p.step(e) {
            Action::Commit { message, parent } => commits.push((message, parent, last_staged.clone())),
            Action::StageFiles(files) => last_staged = files,
            Action::WriteFile { path, contents } => written = Some((path, contents)),
            Action::Finish => {}
            Action::Abort => panic!("run aborted"),
        }
    }
    assert_eq!(p.stage, Stage::Finished);
    assert_eq!(commits.len(), 2);
    assert_eq!(commits[0].0, "Add samples from Ableton project");
    assert_eq!(commits[0].2, vec!["kick.wav".to_string()]);
    assert_eq!(commits[1].0, "Add .gitattributes for Git LFS");
    assert_eq!(commits[1].2, vec![".gitattributes".to_string()]);
    assert_eq!(written, Some((".gitattributes".to_string(), "* filter=lfs diff=lfs merge=lfs -text".to_string())));
}

#[test]
fn second_commit_builds_on_the_first() {
    let mut p = CommitPipeline::new(Vec::new());
    p.step(Event::Opened(Some(vec![7, 7])));
    match p.step(Event::Staged) {
        Action::Commit { parent, .. } => assert_eq!(parent, Some(vec![7, 7])),
        _ => panic!("expected a commit"),
    }
    p.step(Event::Committed(vec![9, 9]));
    p.step(Event::Written);
    match p.step(Event::Staged) {
        Action::Commit { parent, .. } => assert_eq!(parent, Some(vec![9, 9])),
        _ => panic!("expected a commit"),
    }
}

#[test]
fn failure_aborts_and_stays_aborted() {
    let mut p = CommitPipeline::new(Vec::new());
    assert!(matches!(p.step(Event::Failed), Action::Abort));
    assert_eq!(p.stage, Stage::Aborted);
    assert!(matches!(p.step(Event::Opened(None)), Action::Abort));
}

#[test]
fn out_of_order_event_aborts() {
    let mut p = CommitPipeline::new(Vec::new());
    p.step(Event::Opened(None));
    assert!(matches!(p.step(Event::Committed(vec![1])), Action::Abort));
}

#[test]
fn end_to_end_plan_for_one_sample() {
    let xml = "<A><SampleRef><FileRef><RelativePath Value=\"Samples/kick.wav\"/></FileRef></SampleRef></A>";
    let project = parse_project("P", xml).unwrap();
    let steps = plan_copies(&project, &vec![true]).ok().unwrap();
    assert_eq!(steps.len(), 1);
    assert_eq!(steps[0].dest, "kick.wav");
    let entries = vec![entry("kick.wav", true)];
    let mut p = CommitPipeline::new(files_to_stage(&entries));
    match p.step(Event::Opened(None)) {
        Action::StageFiles(f) => assert_eq!(f, vec!["kick.wav".to_string()]),
        _ => panic!("expected staging"),
    }
}
