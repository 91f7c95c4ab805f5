//! Carrying out a rename plan, entry by entry, through the rename operation
//! that the caller brings: the local file system, or a remote session.

use vstd::prelude::*;
use crate::classify::FileCategory;
use crate::matcher::{
    is_plan_of, lemma_sort_by_name, lemma_sorted_stays, match_files, match_files_strict, readings,
    texts, CountMismatch,
};
use crate::scan::{scan_directory, those_of};

verus! {

/// The rename that stopped a run.
pub struct RenameFailure<E> {
    /// The position of the entry in the plan.
    pub index: usize,
    /// The path that was to be renamed.
    pub source: String,
    /// The path that it was to get.
    pub target: String,
    /// What the rename operation gave as the reason.
    pub cause: E,
}

/// How a run over a plan ended.
pub struct ExecutionReport<E> {
    /// How many entries were gone through: renamed, or in a dry run only
    /// counted.
    pub completed: usize,
    /// The rename that failed, if one did. The entries behind it were not
    /// tried, and those before it stay renamed.
    pub failure: Option<RenameFailure<E>>,
}

/// Whether `report` tells how a run over `plan` ended. A dry run goes through
/// every entry and renames nothing. A live run renames the entries in order
/// and stops at the first rename that fails: the report then names that
/// entry and gives the reason, and counts the entries before it, each of
/// which was renamed.
pub open spec fn tells<E, R: Fn(&String, &String) -> Result<(), E>>(
    report: ExecutionReport<E>,
    plan: Seq<(String, String)>,
    dry_run: bool,
    rename: R,
) -> bool {
    if dry_run {
        report.completed == plan.len() && report.failure is None
    } else {
        &&& report.completed <= plan.len()
        &&& forall|i: int|
            0 <= i < report.completed ==> call_ensures(
                rename,
                (&(#[trigger] plan[i]).0, &plan[i].1),
                Ok(()),
            )
        &&& match report.failure {
            None => report.completed == plan.len(),
            Some(failure) => {
                &&& failure.index == report.completed
                &&& failure.index < plan.len()
                &&& failure.source@ == plan[failure.index as int].0@
                &&& failure.target@ == plan[failure.index as int].1@
                &&& call_ensures(
                    rename,
                    (&plan[failure.index as int].0, &plan[failure.index as int].1),
                    Err(failure.cause),
                )
            },
        }
    }
}

/// Goes through `plan`. In a dry run nothing is renamed and `rename` is not
/// called. Otherwise each entry is handed to `rename`, in order, until one
/// fails: the run stops there, and what was renamed before stays renamed.
pub fn execute<E, R: Fn(&String, &String) -> Result<(), E>>(
    plan: &Vec<(String, String)>,
    dry_run: bool,
    rename: &R,
) -> (report: ExecutionReport<E>)
    requires
        !dry_run ==> forall|i: int|
            0 <= i < plan.len() ==> call_requires(*rename, (&(#[trigger] plan[i]).0, &plan[i].1)),
    ensures
        tells(report, plan@, dry_run, *rename),
{
    if dry_run {
        return ExecutionReport { completed: plan.len(), failure: None };
    }
    let mut done: usize = 0;
    while done < plan.len()
        invariant
            !dry_run,
            done <= plan.len(),
            forall|i: int|
                0 <= i < plan.len() ==> call_requires(
                    *rename,
                    (&(#[trigger] plan[i]).0, &plan[i].1),
                ),
            forall|i: int|
                0 <= i < done ==> call_ensures(
                    *rename,
                    (&(#[trigger] plan[i]).0, &plan[i].1),
                    Ok(()),
                ),
        decreases plan.len() - done,
    {
        let entry = &plan[done];
        match rename(&entry.0, &entry.1) {
            Ok(unit) => {
                assert(unit == ());
            },
            Err(cause) => {
                return ExecutionReport {
                    completed: done,
                    failure: Some(
                        RenameFailure {
                            index: done,
                            source: entry.0.clone(),
                            target: entry.1.clone(),
                            cause,
                        },
                    ),
                };
            },
        }
        done = done + 1;
    }
    ExecutionReport { completed: done, failure: None }
}

/// Plans the renames for `subtitles` and `videos` and goes through the plan.
/// Lists of different lengths are accepted: what the longer one has in
/// excess is left alone.
pub fn rename_subtitles<
    E,
    L: Fn(&String) -> Option<String>,
    R: Fn(&String, &String) -> Result<(), E>,
>(subtitles: Vec<String>, videos: Vec<String>, dry_run: bool, load: &L, rename: &R) -> (done: (
    Vec<(String, String)>,
    ExecutionReport<E>,
))
    requires
        forall|i: int|
            0 <= i < subtitles.len() ==> call_requires(*load, (&#[trigger] subtitles[i],)),
        !dry_run ==> forall|from: String, to: String| call_requires(*rename, (&from, &to)),
    ensures
        is_plan_of(readings(done.0@), texts(videos@), texts(subtitles@), *load),
        tells(done.1, done.0@, dry_run, *rename),
{
    let plan = match_files(videos, subtitles, load);
    let report = execute(&plan, dry_run, rename);
    (plan, report)
}

/// Plans the renames for `subtitles` and `videos` and goes through the plan,
/// as `rename_subtitles` does, but only where there are as many subtitles as
/// videos. Where there are not, nothing is planned or renamed and both
/// counts are handed back.
pub fn rename_subtitles_strict<
    E,
    L: Fn(&String) -> Option<String>,
    R: Fn(&String, &String) -> Result<(), E>,
>(subtitles: Vec<String>, videos: Vec<String>, dry_run: bool, load: &L, rename: &R) -> (done:
    Result<(Vec<(String, String)>, ExecutionReport<E>), CountMismatch>)
    requires
        forall|i: int|
            0 <= i < subtitles.len() ==> call_requires(*load, (&#[trigger] subtitles[i],)),
        !dry_run ==> forall|from: String, to: String| call_requires(*rename, (&from, &to)),
    ensures
        match done {
            Ok((plan, report)) => {
                &&& subtitles.len() == videos.len()
                &&& is_plan_of(readings(plan@), texts(videos@), texts(subtitles@), *load)
                &&& tells(report, plan@, dry_run, *rename)
            },
            Err(mismatch) => {
                &&& subtitles.len() != videos.len()
                &&& mismatch.subtitles == subtitles.len()
                &&& mismatch.videos == videos.len()
            },
        },
{
    match match_files_strict(videos, subtitles, load) {
        Ok(plan) => {
            let report = execute(&plan, dry_run, rename);
            Ok((plan, report))
        },
        Err(mismatch) => Err(mismatch),
    }
}

/// Takes the entries of a directory, plans the renames for the subtitles and
/// videos among them and goes through the plan.
pub fn scan_and_rename<
    E,
    L: Fn(&String) -> Option<String>,
    R: Fn(&String, &String) -> Result<(), E>,
>(entries: Vec<String>, dry_run: bool, load: &L, rename: &R) -> (done: (
    Vec<(String, String)>,
    ExecutionReport<E>,
))
    requires
        forall|i: int|
            0 <= i < entries.len() ==> call_requires(*load, (&#[trigger] entries[i],)),
        !dry_run ==> forall|from: String, to: String| call_requires(*rename, (&from, &to)),
    ensures
        is_plan_of(
            readings(done.0@),
            those_of(texts(entries@), FileCategory::Video),
            those_of(texts(entries@), FileCategory::Subtitle),
            *load,
        ),
        tells(done.1, done.0@, dry_run, *rename),
{
    let (subtitles, videos) = scan_directory(entries);
    proof {
        let all = texts(entries@);
        lemma_sort_by_name(those_of(all, FileCategory::Video));
        lemma_sort_by_name(those_of(all, FileCategory::Subtitle));
        lemma_sorted_stays(texts(videos@));
        lemma_sorted_stays(texts(subtitles@));
        assert forall|k: int| 0 <= k < subtitles.len() implies call_requires(
            *load,
            (&#[trigger] subtitles[k],),
        ) by {
            let from = choose|from: int|
                0 <= from < entries.len() && entries[from] == subtitles[k];
            assert(call_requires(*load, (&entries[from],)));
        }
    }
    rename_subtitles(subtitles, videos, dry_run, load, rename)
}

} // verus!
