//! Mirroring the found samples into the snapshot directory: which files are
//! copied, and where they land below the snapshot root.

use vstd::prelude::*;
use crate::descriptor::AbletonProject;
use vstd::string::StringExecFns;

verus! {

/// The directory, below the project directory, that holds the samples.
pub const SAMPLE_DIR: &'static str = "Samples";

/// The directory, below the project directory, that holds the snapshot.
pub const VC_SAMPLE_DIR: &'static str = "GitSamples";

/// The component list `done` once the segment `seg` is closed: empty and `.`
/// segments name no component.
pub open spec fn close_segment(done: Seq<Seq<char>>, seg: Seq<char>) -> Seq<Seq<char>> {
    if seg.len() == 0 || seg == "."@ {
        done
    } else {
        done.push(seg)
    }
}

/// The components closed within the first `n` characters of `s`, and the
/// segment still open there.
pub open spec fn split_prefix(s: Seq<char>, n: int) -> (Seq<Seq<char>>, Seq<char>)
    decreases n,
{
    if n <= 0 {
        (Seq::empty(), Seq::empty())
    } else {
        let (done, seg) = split_prefix(s, n - 1);
        if s[n - 1] == '/' {
            (close_segment(done, seg), Seq::empty())
        } else {
            (done, seg.push(s[n - 1]))
        }
    }
}

/// The components of the path `s`: its `/`-separated segments, without empty
/// and `.` segments.
pub open spec fn components(s: Seq<char>) -> Seq<Seq<char>> {
    close_segment(split_prefix(s, s.len() as int).0, split_prefix(s, s.len() as int).1)
}

/// The components `c` joined by separators.
pub open spec fn join_components(c: Seq<Seq<char>>) -> Seq<char>
    decreases c.len(),
{
    if c.len() == 0 {
        Seq::empty()
    } else if c.len() == 1 {
        c[0]
    } else {
        join_components(c.drop_last()) + "/"@ + c.last()
    }
}

/// The sample path, relative to the project directory, names a file below the
/// sample root: it is relative, its first component is `Samples`, a component
/// follows, and none of them climbs with `..`.
pub open spec fn under_sample_root(s: Seq<char>) -> bool {
    &&& !(s.len() > 0 && s[0] == '/')
    &&& components(s).len() >= 2
    &&& components(s)[0] == "Samples"@
    &&& forall|k: int| 0 <= k < components(s).len() ==> #[trigger] components(s)[k] != ".."@
}

/// The path of a sample below the sample root: its components after the first.
pub open spec fn below_sample_root(s: Seq<char>) -> Seq<char> {
    join_components(components(s).drop_first())
}

/// One copy: the sample's path below the project directory, and the path of
/// its copy below the snapshot root.
pub struct CopyStep {
    pub source: String,
    pub dest: String,
}

impl View for CopyStep {
    type V = (Seq<char>, Seq<char>);

    open spec fn view(&self) -> (Seq<char>, Seq<char>) {
        (self.source@, self.dest@)
    }
}

/// A sample that exists on disk but lies outside the sample root, and the
/// copies planned for the samples before it, which are still carried out.
pub struct PathError {
    pub sample: String,
    pub copied: Vec<CopyStep>,
}

/// The copies for the first `n` samples, where `present[i]` tells whether
/// sample `i` exists on disk: a missing sample is skipped, a present one is
/// copied to its place below the sample root, and the first present one
/// outside the sample root fails the plan, keeping the copies before it.
pub open spec fn copy_plan(samples: Seq<Seq<char>>, present: Seq<bool>, n: int) -> Result<Seq<(Seq<char>, Seq<char>)>, (Seq<(Seq<char>, Seq<char>)>, Seq<char>)>
    decreases n,
{
    if n <= 0 {
        Ok(Seq::empty())
    } else {
        match copy_plan(samples, present, n - 1) {
            Err(e) => Err(e),
            Ok(steps) => if !present[n - 1] {
                Ok(steps)
            } else if under_sample_root(samples[n - 1]) {
                Ok(steps.push((samples[n - 1], below_sample_root(samples[n - 1]))))
            } else {
                Err((steps, samples[n - 1]))
            },
        }
    }
}

pub open spec fn sample_views(v: Seq<String>) -> Seq<Seq<char>> {
    v.map_values(|s: String| s@)
}

pub open spec fn step_views(v: Seq<CopyStep>) -> Seq<(Seq<char>, Seq<char>)> {
    v.map_values(|c: CopyStep| c@)
}

/// `done` with the segment of `s` from `start` to `end` closed.
fn close_exec(done: &mut Vec<String>, s: &str, start: usize, end: usize)
    requires
        start <= end <= s@.len(),
    ensures
        final(done)@.map_values(|c: String| c@) == close_segment(old(done)@.map_values(|c: String| c@),
            s@.subrange(start as int, end as int)),
{
    let seg = s.substring_char(start, end);
    let dot = ".";
    proof { reveal_strlit("."); }
    if start == end || (end - start == 1 && s.get_char(start) == '.') {
        if end - start == 1 {
            assert(seg@ =~= dot@);
        }
        return;
    }
    assert(seg@ != dot@) by {
        if seg@ == dot@ {
            assert(seg@.len() == end - start);
            assert(dot@.len() == 1);
            assert(seg@[0] == s@[start as int]);
            assert(dot@[0] == '.');
        }
    }
    let ghost before = done@;
    done.push(seg.to_owned());
    assert(done@.map_values(|c: String| c@) =~= before.map_values(|c: String| c@).push(seg@));
}

/// The components of `s`.
fn components_of(s: &str) -> (r: Vec<String>)
    ensures
        r@.map_values(|c: String| c@) == components(s@),
{
    let len = s.unicode_len();
    let mut done: Vec<String> = Vec::new();
    let mut start: usize = 0;
    let mut i: usize = 0;
    assert(done@.map_values(|c: String| c@) =~= Seq::<Seq<char>>::empty());
    assert(s@.subrange(0, 0) =~= Seq::<char>::empty());
    while i < len
        invariant
            len == s@.len(),
            start <= i <= len,
            split_prefix(s@, i as int).0 == done@.map_values(|c: String| c@),
            split_prefix(s@, i as int).1 == s@.subrange(start as int, i as int),
        decreases len - i,
    {
        if s.get_char(i) == '/' {
            close_exec(&mut done, s, start, i);
            start = i + 1;
            assert(s@.subrange(start as int, start as int) =~= Seq::<char>::empty());
        } else {
            assert(s@.subrange(start as int, i + 1) =~= s@.subrange(start as int, i as int).push(s@[i as int]));
        }
        i = i + 1;
    }
    close_exec(&mut done, s, start, len);
    done
}

/// The part of `s` below the sample root, when `s` lies there.
fn relative_to_sample_root(s: &str) -> (r: Option<String>)
    ensures
        r is Some <==> under_sample_root(s@),
        r is Some ==> r->0@ == below_sample_root(s@),
{
    let comps = components_of(s);
    let ghost c = components(s@);
    assert(forall|k: int| 0 <= k < comps@.len() ==> #[trigger] comps@[k]@ == c[k]);
    if s.unicode_len() > 0 && s.get_char(0) == '/' {
        return None;
    }
    let root = "Samples".to_owned();
    if comps.len() < 2 {
        return None;
    }
    assert(root@ == "Samples"@);
    assert(comps@[0]@ == c[0]);
    if !(comps[0] == root) {
        assert(c[0] != "Samples"@);
        return None;
    }
    let parent = "..".to_owned();
    let mut k: usize = 0;
    while k < comps.len()
        invariant
            k <= comps@.len(),
            comps@.len() == c.len(),
            parent@ == ".."@,
            c == components(s@),
            forall|j: int| 0 <= j < comps@.len() ==> #[trigger] comps@[j]@ == c[j],
            forall|j: int| 0 <= j < k ==> #[trigger] c[j] != ".."@,
        decreases comps@.len() - k,
    {
        if comps[k] == parent {
            return None;
        }
        k = k + 1;
    }
    let ghost rest = c.drop_first();
    let mut out = comps[1].clone();
    let mut j: usize = 2;
    assert(rest.subrange(0, 1).drop_last() =~= Seq::<Seq<char>>::empty());
    while j < comps.len()
        invariant
            2 <= j <= comps@.len(),
            comps@.len() == c.len(),
            rest == c.drop_first(),
            c == components(s@),
            forall|m: int| 0 <= m < comps@.len() ==> #[trigger] comps@[m]@ == c[m],
            out@ == join_components(rest.subrange(0, j - 1)),
        decreases comps@.len() - j,
    {
        out.append("/");
        out.append(comps[j].as_str());
        assert(rest.subrange(0, j as int).drop_last() =~= rest.subrange(0, j - 1));
        j = j + 1;
    }
    assert(rest.subrange(0, j - 1) =~= rest);
    Some(out)
}

/// The copies that mirror `project`'s samples into the snapshot, where
/// `present[i]` tells whether `project.samples[i]` exists on disk. The first
/// present sample outside the sample root is returned as the error, with the
/// copies planned before it.
pub fn plan_copies(project: &AbletonProject, present: &Vec<bool>) -> (r: Result<Vec<CopyStep>, PathError>)
    requires
        present@.len() == project.samples@.len(),
    ensures
        ({
            let plan = copy_plan(sample_views(project.samples@), present@, present@.len() as int);
            &&& plan is Ok ==> r is Ok && step_views(r->Ok_0@) == plan->Ok_0
            &&& plan is Err ==> r is Err && r->Err_0.sample@ == plan->Err_0.1
                && step_views(r->Err_0.copied@) == plan->Err_0.0
        }),
{
    let ghost samples = sample_views(project.samples@);
    let mut steps: Vec<CopyStep> = Vec::new();
    let mut i: usize = 0;
    assert(step_views(steps@) =~= Seq::<(Seq<char>, Seq<char>)>::empty());
    while i < present.len()
        invariant
            i <= present@.len(),
            present@.len() == project.samples@.len(),
            samples == sample_views(project.samples@),
            copy_plan(samples, present@, i as int) is Ok,
            copy_plan(samples, present@, i as int)->Ok_0 == step_views(steps@),
        decreases present@.len() - i,
    {
        if present[i] {
            let sample = &project.samples[i];
            assert(sample@ == samples[i as int]);
            match relative_to_sample_root(sample.as_str()) {
                None => {
                    proof { lemma_plan_stays_failed(samples, present@, i as int + 1, present@.len() as int); }
                    return Err(PathError { sample: sample.clone(), copied: steps });
                },
                Some(dest) => {
                    let ghost before = steps@;
                    steps.push(CopyStep { source: sample.clone(), dest });
                    assert(step_views(steps@) == step_views(before).push(steps@.last()@));
                },
            }
        }
        i = i + 1;
    }
    Ok(steps)
}

/// The files below the snapshot root after carrying out `steps` on a snapshot
/// that held `before`: each copy adds its destination, or replaces the file
/// already there.
pub open spec fn files_after(before: Set<Seq<char>>, steps: Seq<(Seq<char>, Seq<char>)>) -> Set<Seq<char>> {
    before.union(Set::new(|d: Seq<char>| exists|k: int| 0 <= k < steps.len() && #[trigger] steps[k].1 == d))
}

/// `src` is one of the first `n` samples, and that sample is present.
pub open spec fn present_sample(samples: Seq<Seq<char>>, present: Seq<bool>, n: int, src: Seq<char>) -> bool {
    exists|j: int| 0 <= j < n && present[j] && #[trigger] samples[j] == src
}

/// A missing sample is skipped: every copy comes from a sample that is present,
/// and a plan fails only on a present sample outside the sample root.
pub proof fn missing_samples_are_skipped(samples: Seq<Seq<char>>, present: Seq<bool>, n: int)
    requires
        0 <= n <= samples.len(),
        n <= present.len(),
    ensures
        copy_plan(samples, present, n) is Ok ==> forall|k: int|
            0 <= k < copy_plan(samples, present, n)->Ok_0.len() ==> present_sample(samples, present, n,
                #[trigger] copy_plan(samples, present, n)->Ok_0[k].0),
        copy_plan(samples, present, n) is Err ==> present_sample(samples, present, n, copy_plan(samples, present, n)->Err_0.1)
            && !under_sample_root(copy_plan(samples, present, n)->Err_0.1),
    decreases n,
{
    if n > 0 {
        missing_samples_are_skipped(samples, present, n - 1);
        let prev = copy_plan(samples, present, n - 1);
        if prev is Ok {
            let steps = copy_plan(samples, present, n)->Ok_0;
            assert forall|k: int| 0 <= k < prev->Ok_0.len() implies present_sample(samples, present, n, #[trigger] prev->Ok_0[k].0) by {
                assert(present_sample(samples, present, n - 1, prev->Ok_0[k].0));
                let j = choose|j: int| 0 <= j < n - 1 && present[j] && #[trigger] samples[j] == prev->Ok_0[k].0;
                assert(samples[j] == prev->Ok_0[k].0);
            }
            if present[n - 1] && under_sample_root(samples[n - 1]) {
                assert forall|k: int| 0 <= k < steps.len() implies present_sample(samples, present, n, #[trigger] steps[k].0) by {
                    if k < steps.len() - 1 {
                        assert(steps[k] == prev->Ok_0[k]);
                    } else {
                        assert(samples[n - 1] == steps[k].0);
                    }
                }
            } else if !present[n - 1] {
                assert(steps == prev->Ok_0);
            } else {
                assert(samples[n - 1] == copy_plan(samples, present, n)->Err_0.1);
            }
        } else {
            let e = prev->Err_0.1;
            let j = choose|j: int| 0 <= j < n - 1 && present[j] && #[trigger] samples[j] == e;
            assert(samples[j] == e);
        }
    }
}

/// Carrying out the same plan a second time leaves the snapshot with the same
/// files as the first time: copies replace, they never add a second file.
pub proof fn second_materialization_keeps_files(before: Set<Seq<char>>, steps: Seq<(Seq<char>, Seq<char>)>)
    ensures
        files_after(files_after(before, steps), steps) == files_after(before, steps),
{
    assert(files_after(files_after(before, steps), steps) =~= files_after(before, steps));
}

/// Once the plan for the first `n` samples has failed, the plan for the first
/// `m` fails the same way.
proof fn lemma_plan_stays_failed(samples: Seq<Seq<char>>, present: Seq<bool>, n: int, m: int)
    requires
        0 <= n <= m,
        copy_plan(samples, present, n) is Err,
    ensures
        copy_plan(samples, present, m) == copy_plan(samples, present, n),
    decreases m - n,
{
    if n < m {
        lemma_plan_stays_failed(samples, present, n, m - 1);
    }
}

} // verus!
