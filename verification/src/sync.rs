//! Driving the materialisation of a sync set. The run is a state machine:
//! it says which unit of work to start next, takes the outcome of each
//! attempt, decides on retries, and in the end gives one result for each
//! unit in the order of the sync set. At no time are more units in flight
//! than the concurrency limit allows, a failure of one unit stops no other,
//! and after a cancellation no new unit is started.

use crate::filter::is_required;
use crate::manifest::text_of;
use crate::manifest::views_of;
use crate::project::nested_text;
use crate::project::ProjectSpec;
use crate::project::ProjectSpecView;
use crate::resolver::ResolvedManifest;
use crate::text::concat_text;
use crate::text::decimal_value;
use crate::text::is_decimal;
use crate::text::parse_decimal;
use vstd::prelude::*;

verus! {

/// The text of an address to clone from: the fetch prefix of the remote, a
/// slash, the name of the project, and `.git`.
pub open spec fn clone_url_text(fetch: Seq<char>, name: Seq<char>) -> Seq<char> {
    fetch + seq!['/'] + name + seq!['.', 'g', 'i', 't']
}

/// The address to clone a project from.
pub fn clone_url(fetch: &String, name: &String) -> (url: String)
    ensures
        url@ == clone_url_text(fetch@, name@),
{
    proof {
        reveal_strlit("/");
        reveal_strlit(".git");
        assert("/"@ =~= seq!['/']);
        assert(".git"@ =~= seq!['.', 'g', 'i', 't']);
    }
    let mut url = concat_text(fetch.as_str(), "/");
    url.append(name.as_str());
    url.append(".git");
    url
}

/// The number that an optional text gives, if it is a decimal number that
/// fits.
pub open spec fn number_of(text: Option<Seq<char>>) -> Option<u64> {
    match text {
        Some(digits) => if is_decimal(digits) && decimal_value(digits) <= u64::MAX {
            Some(decimal_value(digits) as u64)
        } else {
            None
        },
        None => None,
    }
}

/// Reads an optional decimal number.
pub fn read_number(text: &Option<String>) -> (number: Option<u64>)
    ensures
        number == number_of(text_of(*text)),
{
    match text {
        Some(digits) => parse_decimal(digits.as_str()),
        None => None,
    }
}

/// How many units may be in flight at once: the number asked for on the
/// command line if there is one and it is not zero, else the number of
/// jobs that the manifest's default record gives if it gives one that is
/// not zero, else the parallelism of the host, and one at the least.
pub open spec fn concurrency_of(asked: Option<usize>, manifest_jobs: Option<u64>, host: usize) -> int {
    if asked is Some && asked->0 > 0 {
        asked->0 as int
    } else if manifest_jobs is Some && 0 < manifest_jobs->0 <= usize::MAX {
        manifest_jobs->0 as int
    } else if host > 0 {
        host as int
    } else {
        1
    }
}

/// Picks the concurrency limit of a run.
pub fn concurrency(asked: Option<usize>, manifest_jobs: Option<u64>, host: usize) -> (limit: usize)
    ensures
        limit == concurrency_of(asked, manifest_jobs, host),
        limit >= 1,
{
    match asked {
        Some(n) => {
            if n > 0 {
                return n;
            }
        },
        None => {},
    }
    match manifest_jobs {
        Some(n) => {
            if n > 0 && n <= usize::MAX as u64 {
                return n as usize;
            }
        },
        None => {},
    }
    if host > 0 {
        host
    } else {
        1
    }
}

/// One unit of work: a project to clone or fetch and check out.
#[derive(Debug, PartialEq, Eq)]
pub struct SyncJob {
    /// The name of the project.
    pub name: String,
    /// The path of the project: its key in the project table.
    pub path: String,
    /// The address to clone from.
    pub url: String,
    /// The directory of the working tree.
    pub destination: String,
    /// The revision to check out; the remote's head where there is none.
    pub revision: Option<String>,
    /// The depth of a shallow clone; a full clone where there is none.
    pub depth: Option<u64>,
    /// Whether the run fails when this unit fails.
    pub required: bool,
}

/// The view of a `SyncJob`: its texts as characters and its lists as
/// sequences.
pub struct SyncJobView {
    pub name: Seq<char>,
    pub path: Seq<char>,
    pub url: Seq<char>,
    pub destination: Seq<char>,
    pub revision: Option<Seq<char>>,
    pub depth: Option<u64>,
    pub required: bool,
}

impl View for SyncJob {
    type V = SyncJobView;

    open spec fn view(&self) -> SyncJobView {
        SyncJobView {
            name: self.name@,
            path: self.path@,
            url: self.url@,
            destination: self.destination@,
            revision: text_of(self.revision),
            depth: self.depth,
            required: self.required,
        }
    }
}

impl Clone for SyncJob {
    fn clone(&self) -> (copy: Self)
        ensures
            copy@ == self@,
    {
        SyncJob {
            name: self.name.clone(),
            path: self.path.clone(),
            url: self.url.clone(),
            destination: self.destination.clone(),
            revision: self.revision.clone(),
            depth: self.depth,
            required: self.required,
        }
    }
}

/// The unit of work for a project of a resolved manifest, in the workspace
/// at `root`: cloned from the address that its remote and its name give,
/// into the directory at its path below the root. There is none where the
/// project names no remote of the registry.
pub open spec fn job_of(
    project: ProjectSpecView,
    remotes: Seq<crate::manifest::RemoteView>,
    root: Seq<char>,
) -> Option<SyncJobView> {
    if project.remote is Some && crate::table::holds_key(remotes, project.remote->0) {
        let remote = remotes[crate::table::place_of(remotes, project.remote->0)];
        Some(
            SyncJobView {
                name: project.name,
                path: project.path,
                url: clone_url_text(remote.fetch, project.name),
                destination: nested_text(root, project.path),
                revision: project.revision,
                depth: number_of(project.clone_depth),
                required: crate::filter::required(project),
            },
        )
    } else {
        None
    }
}

/// The view of an optional unit of work.
pub open spec fn job_view(job: Option<SyncJob>) -> Option<SyncJobView> {
    match job {
        Some(j) => Some(j@),
        None => None,
    }
}

/// Makes the unit of work for a project.
pub fn job_for(project: &ProjectSpec, manifest: &ResolvedManifest, root: &String) -> (job: Option<
    SyncJob,
>)
    requires
        manifest.wf(),
    ensures
        job_view(job) == job_of(project@, manifest@.remotes, root@),
{
    let name = match &project.remote {
        Some(name) => name,
        None => {
            return None;
        },
    };
    let remotes = manifest.remotes();
    let at = match crate::table::find_remote(remotes, name) {
        Some(at) => at,
        None => {
            return None;
        },
    };
    proof {
        manifest.lemma_wf();
        crate::table::lemma_place_is_unique(views_of(remotes@), at as int);
        reveal_strlit("/");
        assert("/"@ =~= seq!['/']);
    }
    let mut destination = concat_text(root.as_str(), "/");
    destination.append(project.path.as_str());
    Some(
        SyncJob {
            name: project.name.clone(),
            path: project.path.clone(),
            url: clone_url(&remotes[at].fetch, &project.name),
            destination: destination,
            revision: project.revision.clone(),
            depth: read_number(&project.clone_depth),
            required: is_required(project),
        },
    )
}

/// The units of work for a sync set: one for each project that names a
/// remote of the registry, in the order of the set.
pub open spec fn jobs_of(
    set: Seq<ProjectSpecView>,
    remotes: Seq<crate::manifest::RemoteView>,
    root: Seq<char>,
) -> Seq<SyncJobView>
    decreases set.len(),
{
    if set.len() == 0 {
        Seq::empty()
    } else {
        let before = jobs_of(set.drop_last(), remotes, root);
        match job_of(set.last(), remotes, root) {
            Some(job) => before.push(job),
            None => before,
        }
    }
}

/// Every project of a well-formed manifest has a unit of work, so the
/// units of its own projects are as many as the projects.
pub proof fn law_every_resolved_project_has_a_unit(
    set: Seq<ProjectSpecView>,
    remotes: Seq<crate::manifest::RemoteView>,
    root: Seq<char>,
)
    requires
        forall|i: int|
            0 <= i < set.len() ==> (#[trigger] set[i]).remote is Some && crate::table::holds_key(
                remotes,
                set[i].remote->0,
            ),
    ensures
        jobs_of(set, remotes, root).len() == set.len(),
        forall|i: int|
            0 <= i < set.len() ==> Some(#[trigger] jobs_of(set, remotes, root)[i]) == job_of(
                set[i],
                remotes,
                root,
            ),
    decreases set.len(),
{
    if set.len() > 0 {
        law_every_resolved_project_has_a_unit(set.drop_last(), remotes, root);
        assert(set.drop_last().len() == set.len() - 1);
        assert forall|i: int| 0 <= i < set.len() implies Some(
            #[trigger] jobs_of(set, remotes, root)[i],
        ) == job_of(set[i], remotes, root) by {
            if i < set.len() - 1 {
                assert(set.drop_last()[i] == set[i]);
            }
        }
    }
}

/// Makes the units of work for a sync set.
pub fn jobs_for(set: &Vec<ProjectSpec>, manifest: &ResolvedManifest, root: &String) -> (jobs: Vec<
    SyncJob,
>)
    requires
        manifest.wf(),
    ensures
        views_of(jobs@) == jobs_of(views_of(set@), manifest@.remotes, root@),
{
    let mut jobs: Vec<SyncJob> = Vec::new();
    let mut i: usize = 0;
    proof {
        assert(views_of(set@).take(0) =~= Seq::<ProjectSpecView>::empty());
        assert(views_of(jobs@) =~= Seq::<SyncJobView>::empty());
    }
    while i < set.len()
        invariant
            i <= set.len(),
            manifest.wf(),
            views_of(jobs@) == jobs_of(views_of(set@).take(i as int), manifest@.remotes, root@),
        decreases set.len() - i,
    {
        let ghost made = views_of(jobs@);
        proof {
            assert(views_of(set@).take(i + 1).drop_last() =~= views_of(set@).take(i as int));
            assert(views_of(set@).take(i + 1).last() == set[i as int]@);
        }
        match job_for(&set[i], manifest, root) {
            Some(job) => {
                jobs.push(job);
                proof {
                    assert(views_of(jobs@) =~= made.push(jobs[jobs.len() - 1]@));
                }
            },
            None => {},
        }
        i = i + 1;
    }
    proof {
        assert(views_of(set@).take(set.len() as int) =~= views_of(set@));
    }
    jobs
}

} // verus!
