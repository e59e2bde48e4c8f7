//! Recording the snapshot in its version history: the steps of a run, as a
//! machine that takes the outcome of each step and names the next one.

use vstd::prelude::*;

verus! {

/// The message of the commit that records the samples.
pub const CONTENT_MESSAGE: &'static str = "Add samples from Ableton project";

/// The message of the commit that records the large-file configuration.
pub const ATTRIBUTES_MESSAGE: &'static str = "Add .gitattributes for Git LFS";

/// The large-file configuration file, at the snapshot root.
pub const ATTRIBUTES_PATH: &'static str = ".gitattributes";

/// What the large-file configuration file holds.
pub const ATTRIBUTES_CONTENT: &'static str = "* filter=lfs diff=lfs merge=lfs -text";

/// Where a run stands.
#[derive(PartialEq, Eq, Structural, Clone, Copy, Debug)]
pub enum Stage {
    /// The history is being opened, or created where there is none.
    Opening,
    /// The snapshot's files are being staged.
    StagingContent,
    /// The samples are being committed.
    CommittingContent,
    /// The large-file configuration is being written.
    WritingAttributes,
    /// The configuration file is being staged.
    StagingAttributes,
    /// The configuration is being committed.
    CommittingAttributes,
    /// The run has succeeded.
    Finished,
    /// The run has failed.
    Aborted,
}

/// The outcome of the step last asked for.
pub enum Event {
    /// The history is open; the commit its head points to, if any.
    Opened(Option<Vec<u8>>),
    /// The files asked for are staged.
    Staged,
    /// The commit asked for is made; its id.
    Committed(Vec<u8>),
    /// The file asked for is written.
    Written,
    /// The step failed.
    Failed,
}

/// The next step of a run.
pub enum Action {
    /// Stage these paths, relative to the snapshot root.
    StageFiles(Vec<String>),
    /// Commit the staged tree with this message, as a child of `parent`.
    Commit { message: String, parent: Option<Vec<u8>> },
    /// Write `contents` to `path`, relative to the snapshot root, replacing it.
    WriteFile { path: String, contents: String },
    /// The run is over and has succeeded.
    Finish,
    /// The run is over and has failed.
    Abort,
}

/// The stage that an event leads to. Each step leads to the next on its own
/// outcome; a failure, or an outcome of another step, ends the run. A finished
/// or failed run stays so.
pub open spec fn next_stage(s: Stage, e: Event) -> Stage {
    match s {
        Stage::Opening => if e is Opened { Stage::StagingContent } else { Stage::Aborted },
        Stage::StagingContent => if e is Staged { Stage::CommittingContent } else { Stage::Aborted },
        Stage::CommittingContent => if e is Committed { Stage::WritingAttributes } else { Stage::Aborted },
        Stage::WritingAttributes => if e is Written { Stage::StagingAttributes } else { Stage::Aborted },
        Stage::StagingAttributes => if e is Staged { Stage::CommittingAttributes } else { Stage::Aborted },
        Stage::CommittingAttributes => if e is Committed { Stage::Finished } else { Stage::Aborted },
        Stage::Finished => Stage::Finished,
        Stage::Aborted => Stage::Aborted,
    }
}

pub open spec fn head_view(h: Option<Vec<u8>>) -> Option<Seq<u8>> {
    match h {
        Some(v) => Some(v@),
        None => None,
    }
}

/// `a` is the step that entering stage `t` asks for, where `files` are the
/// snapshot's files and `head` the commit that the next commit builds on: the
/// head of the history before the run for the samples' commit, and that commit
/// for the configuration's, so that the second commit descends from the first.
pub open spec fn action_for(a: Action, t: Stage, files: Seq<Seq<char>>, head: Option<Seq<u8>>) -> bool {
    match t {
        Stage::StagingContent => a is StageFiles && a->StageFiles_0@.map_values(|s: String| s@) == files,
        Stage::CommittingContent => a is Commit && a->Commit_message@ == CONTENT_MESSAGE@
            && head_view(a->Commit_parent) == head,
        Stage::WritingAttributes => a is WriteFile && a->WriteFile_path@ == ATTRIBUTES_PATH@
            && a->WriteFile_contents@ == ATTRIBUTES_CONTENT@,
        Stage::StagingAttributes => a is StageFiles && a->StageFiles_0@.len() == 1
            && a->StageFiles_0@[0]@ == ATTRIBUTES_PATH@,
        Stage::CommittingAttributes => a is Commit && a->Commit_message@ == ATTRIBUTES_MESSAGE@
            && head_view(a->Commit_parent) == head,
        Stage::Finished => a is Finish,
        _ => a is Abort,
    }
}

/// The stage that a run starting at `s` reaches after the events `evs`.
pub open spec fn stage_after(s: Stage, evs: Seq<Event>) -> Stage
    decreases evs.len(),
{
    if evs.len() == 0 {
        s
    } else {
        stage_after(next_stage(s, evs[0]), evs.drop_first())
    }
}

/// Entering this stage asks for a commit.
pub open spec fn is_commit_stage(t: Stage) -> bool {
    t == Stage::CommittingContent || t == Stage::CommittingAttributes
}

/// How many commits a run starting at `s` asks for over the events `evs`.
pub open spec fn commits_made(s: Stage, evs: Seq<Event>) -> nat
    decreases evs.len(),
{
    if evs.len() == 0 {
        0
    } else {
        let t = next_stage(s, evs[0]);
        (if is_commit_stage(t) { 1nat } else { 0nat }) + commits_made(t, evs.drop_first())
    }
}

/// How many commits are still to come from stage `s` on a run that succeeds.
pub open spec fn commits_to_come(s: Stage) -> nat {
    match s {
        Stage::Opening | Stage::StagingContent => 2,
        Stage::CommittingContent | Stage::WritingAttributes | Stage::StagingAttributes => 1,
        _ => 0,
    }
}

/// A failed run stays failed.
proof fn lemma_aborted_stays(evs: Seq<Event>)
    ensures
        stage_after(Stage::Aborted, evs) == Stage::Aborted,
    decreases evs.len(),
{
    if evs.len() > 0 {
        lemma_aborted_stays(evs.drop_first());
    }
}

/// On every event sequence that ends a run from `s` in success, the run asks
/// for the commits still to come from `s`, no more and no fewer.
proof fn lemma_commits_to_come(s: Stage, evs: Seq<Event>)
    requires
        stage_after(s, evs) == Stage::Finished,
    ensures
        commits_made(s, evs) == commits_to_come(s),
    decreases evs.len(),
{
    if evs.len() == 0 {
        assert(s == Stage::Finished);
    } else {
        let t = next_stage(s, evs[0]);
        if t == Stage::Aborted {
            lemma_aborted_stays(evs.drop_first());
        } else {
            lemma_commits_to_come(t, evs.drop_first());
        }
    }
}

/// A run that succeeds makes exactly two commits: the samples, then the
/// large-file configuration (see `action_for` for what each step holds).
pub proof fn successful_run_makes_two_commits(evs: Seq<Event>)
    requires
        stage_after(Stage::Opening, evs) == Stage::Finished,
    ensures
        commits_made(Stage::Opening, evs) == 2,
{
    lemma_commits_to_come(Stage::Opening, evs);
}

/// One entry of the walk over the snapshot directory.
pub struct WalkEntry {
    /// The path relative to the snapshot root.
    pub path: String,
    /// Whether the entry is a file (not a directory).
    pub is_file: bool,
}

/// The history's own metadata: `.git` and what lies below it.
pub open spec fn in_metadata(p: Seq<char>) -> bool {
    p == ".git"@ || (p.len() >= 5 && p.subrange(0, 5) == ".git/"@)
}

/// The paths among the first `n` entries that a content commit stages: every
/// file outside the history's metadata, in walk order.
pub open spec fn staged_paths(entries: Seq<WalkEntry>, n: int) -> Seq<Seq<char>>
    decreases n,
{
    if n <= 0 {
        Seq::empty()
    } else if entries[n - 1].is_file && !in_metadata(entries[n - 1].path@) {
        staged_paths(entries, n - 1).push(entries[n - 1].path@)
    } else {
        staged_paths(entries, n - 1)
    }
}

/// Whether `s` starts with `prefix`.
fn starts_with(s: &str, prefix: &str) -> (r: bool)
    ensures
        r == (s@.len() >= prefix@.len() && s@.subrange(0, prefix@.len() as int) == prefix@),
{
    let n = prefix.unicode_len();
    if s.unicode_len() < n {
        return false;
    }
    let mut i: usize = 0;
    while i < n
        invariant
            i <= n,
            n == prefix@.len(),
            n <= s@.len(),
            s@.subrange(0, i as int) == prefix@.subrange(0, i as int),
        decreases n - i,
    {
        if s.get_char(i) != prefix.get_char(i) {
            assert(s@.subrange(0, n as int)[i as int] != prefix@[i as int]);
            return false;
        }
        assert(s@.subrange(0, i + 1) == s@.subrange(0, i as int).push(s@[i as int]));
        assert(prefix@.subrange(0, i + 1) == prefix@.subrange(0, i as int).push(prefix@[i as int]));
        i = i + 1;
    }
    assert(prefix@.subrange(0, n as int) == prefix@);
    true
}

/// Whether `p` is the history's metadata or lies below it.
fn is_metadata(p: &str) -> (r: bool)
    ensures
        r == in_metadata(p@),
{
    let git = ".git";
    let git_dir = ".git/";
    proof {
        reveal_strlit(".git/");
        reveal_strlit(".git");
        assert(p@.subrange(0, p@.len() as int) == p@);
    }
    let whole = starts_with(p, git) && p.unicode_len() == git.unicode_len();
    if whole {
        assert(p@ == p@.subrange(0, git@.len() as int));
    }
    whole || starts_with(p, git_dir)
}

/// The paths that a content commit stages: the files among `entries` outside
/// the history's metadata, in walk order.
pub fn files_to_stage(entries: &Vec<WalkEntry>) -> (r: Vec<String>)
    ensures
        r@.map_values(|s: String| s@) == staged_paths(entries@, entries@.len() as int),
{
    let mut out: Vec<String> = Vec::new();
    let mut i: usize = 0;
    assert(out@.map_values(|s: String| s@) =~= Seq::<Seq<char>>::empty());
    while i < entries.len()
        invariant
            i <= entries@.len(),
            out@.map_values(|s: String| s@) == staged_paths(entries@, i as int),
        decreases entries@.len() - i,
    {
        let e = &entries[i];
        if e.is_file && !is_metadata(e.path.as_str()) {
            let ghost before = out@;
            let p = e.path.clone();
            out.push(p);
            assert(out@.map_values(|s: String| s@) =~= before.map_values(|s: String| s@).push(e.path@));
        }
        i = i + 1;
    }
    out
}

/// A run that records a snapshot: two commits on the history at the snapshot
/// root, the samples first, then the large-file configuration as its child. Its first step
/// is always to open the history.
pub struct CommitPipeline {
    pub stage: Stage,
    /// The commit that the next commit builds on.
    pub parent: Option<Vec<u8>>,
    pub files: Vec<String>,
}

impl CommitPipeline {
    /// A run that will stage `files`, relative to the snapshot root.
    pub fn new(files: Vec<String>) -> (r: CommitPipeline)
        ensures
            r.stage == Stage::Opening,
            r.files@ == files@,
    {
        CommitPipeline { stage: Stage::Opening, parent: None, files }
    }

    /// Takes the outcome of the step last asked for, and returns the next one.
    pub fn step(&mut self, e: Event) -> (a: Action)
        ensures
            final(self).stage == next_stage(old(self).stage, e),
            final(self).files@ == old(self).files@,
            old(self).stage == Stage::Opening && e is Opened
                ==> head_view(final(self).parent) == head_view(e->Opened_0),
            old(self).stage == Stage::CommittingContent && e is Committed
                ==> head_view(final(self).parent) == Some(e->Committed_0@),
            !(old(self).stage == Stage::Opening && e is Opened)
                && !(old(self).stage == Stage::CommittingContent && e is Committed)
                ==> head_view(final(self).parent) == head_view(old(self).parent),
            action_for(a, final(self).stage, final(self).files@.map_values(|s: String| s@),
                head_view(final(self).parent)),
    {
        let t = match (self.stage, &e) {
            (Stage::Opening, Event::Opened(_)) => Stage::StagingContent,
            (Stage::StagingContent, Event::Staged) => Stage::CommittingContent,
            (Stage::CommittingContent, Event::Committed(_)) => Stage::WritingAttributes,
            (Stage::WritingAttributes, Event::Written) => Stage::StagingAttributes,
            (Stage::StagingAttributes, Event::Staged) => Stage::CommittingAttributes,
            (Stage::CommittingAttributes, Event::Committed(_)) => Stage::Finished,
            (Stage::Finished, _) => Stage::Finished,
            _ => Stage::Aborted,
        };
        match e {
            Event::Opened(h) => if self.stage == Stage::Opening {
                self.parent = h;
            },
            Event::Committed(id) => if self.stage == Stage::CommittingContent {
                self.parent = Some(id);
            },
            _ => {},
        }
        self.stage = t;
        match t {
            Stage::StagingContent => Action::StageFiles(self.files.clone()),
            Stage::CommittingContent => Action::Commit {
                message: CONTENT_MESSAGE.to_owned(),
                parent: self.parent.clone(),
            },
            Stage::WritingAttributes => Action::WriteFile {
                path: ATTRIBUTES_PATH.to_owned(),
                contents: ATTRIBUTES_CONTENT.to_owned(),
            },
            Stage::StagingAttributes => Action::StageFiles(vec![ATTRIBUTES_PATH.to_owned()]),
            Stage::CommittingAttributes => Action::Commit {
                message: ATTRIBUTES_MESSAGE.to_owned(),
                parent: self.parent.clone(),
            },
            Stage::Finished => Action::Finish,
            _ => Action::Abort,
        }
    }
}

} // verus!
