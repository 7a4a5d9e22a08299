//! The raw manifest document: the elements of one manifest file, field for
//! field, before any merging. Every record has a view in which each text
//! field is a sequence of characters and each list a sequence of views.

use vstd::prelude::*;

verus! {

/// The characters of an optional text field.
pub open spec fn text_of(field: Option<String>) -> Option<Seq<char>> {
    match field {
        Some(text) => Some(text@),
        None => None,
    }
}

/// The elements of an optional list; an absent list has none.
pub open spec fn items_of<T>(list: Option<Vec<T>>) -> Seq<T> {
    match list {
        Some(items) => items@,
        None => Seq::empty(),
    }
}

/// A named Git URL prefix shared by the projects that use it.
#[derive(Debug, PartialEq, Eq)]
pub struct Remote {
    /// A short name, unique within a resolved manifest.
    pub name: String,
    /// Overrides `name` as the remote label in each project's configuration.
    pub alias: Option<String>,
    /// The URL prefix that project names are appended to.
    pub fetch: String,
    /// The push URL prefix; the fetch prefix is used when it is absent.
    pub pushurl: Option<String>,
    /// Host name of the review server.
    pub review: Option<String>,
    /// Default revision of the projects that use this remote.
    pub revision: Option<String>,
}

/// The view of a `Remote`: its texts as characters and its lists as
/// sequences.
pub struct RemoteView {
    pub name: Seq<char>,
    pub alias: Option<Seq<char>>,
    pub fetch: Seq<char>,
    pub pushurl: Option<Seq<char>>,
    pub review: Option<Seq<char>>,
    pub revision: Option<Seq<char>>,
}

impl View for Remote {
    type V = RemoteView;

    open spec fn view(&self) -> RemoteView {
        RemoteView {
            name: self.name@,
            alias: text_of(self.alias),
            fetch: self.fetch@,
            pushurl: text_of(self.pushurl),
            review: text_of(self.review),
            revision: text_of(self.revision),
        }
    }
}

impl Clone for Remote {
    fn clone(&self) -> (copy: Self)
        ensures
            copy@ == self@,
    {
        Remote {
            name: self.name.clone(),
            alias: self.alias.clone(),
            fetch: self.fetch.clone(),
            pushurl: self.pushurl.clone(),
            review: self.review.clone(),
            revision: self.revision.clone(),
        }
    }
}

impl Remote {
    /// The label of the remote in a project's configuration: the alias
    /// where there is one, else the name.
    pub fn label(&self) -> (label: &String)
        ensures
            label@ == match self@.alias {
                Some(alias) => alias,
                None => self@.name,
            },
    {
        match &self.alias {
            Some(alias) => alias,
            None => &self.name,
        }
    }

    /// The URL prefix to push to: the push prefix where there is one, else
    /// the fetch prefix.
    pub fn push_prefix(&self) -> (prefix: &String)
        ensures
            prefix@ == match self@.pushurl {
                Some(pushurl) => pushurl,
                None => self@.fetch,
            },
    {
        match &self.pushurl {
            Some(pushurl) => pushurl,
            None => &self.fetch,
        }
    }
}

/// The fallback attributes of a manifest.
#[derive(Debug, PartialEq, Eq)]
pub struct Defaults {
    pub remote: Option<String>,
    pub revision: Option<String>,
    pub dest_branch: Option<String>,
    pub upstream: Option<String>,
    /// Number of parallel jobs to use when synchronising.
    pub sync_j: Option<String>,
    pub sync_c: Option<String>,
    pub sync_s: Option<String>,
    pub sync_tags: Option<String>,
}

/// The view of a `Defaults` record: its texts as characters and its lists as
/// sequences.
pub struct DefaultsView {
    pub remote: Option<Seq<char>>,
    pub revision: Option<Seq<char>>,
    pub dest_branch: Option<Seq<char>>,
    pub upstream: Option<Seq<char>>,
    pub sync_j: Option<Seq<char>>,
    pub sync_c: Option<Seq<char>>,
    pub sync_s: Option<Seq<char>>,
    pub sync_tags: Option<Seq<char>>,
}

impl DefaultsView {
    /// The record that declares nothing.
    pub open spec fn none() -> DefaultsView {
        DefaultsView {
            remote: None,
            revision: None,
            dest_branch: None,
            upstream: None,
            sync_j: None,
            sync_c: None,
            sync_s: None,
            sync_tags: None,
        }
    }
}

impl View for Defaults {
    type V = DefaultsView;

    open spec fn view(&self) -> DefaultsView {
        DefaultsView {
            remote: text_of(self.remote),
            revision: text_of(self.revision),
            dest_branch: text_of(self.dest_branch),
            upstream: text_of(self.upstream),
            sync_j: text_of(self.sync_j),
            sync_c: text_of(self.sync_c),
            sync_s: text_of(self.sync_s),
            sync_tags: text_of(self.sync_tags),
        }
    }
}

impl Clone for Defaults {
    fn clone(&self) -> (copy: Self)
        ensures
            copy@ == self@,
    {
        Defaults {
            remote: self.remote.clone(),
            revision: self.revision.clone(),
            dest_branch: self.dest_branch.clone(),
            upstream: self.upstream.clone(),
            sync_j: self.sync_j.clone(),
            sync_c: self.sync_c.clone(),
            sync_s: self.sync_s.clone(),
            sync_tags: self.sync_tags.clone(),
        }
    }
}

impl Defaults {
    /// The record that declares nothing.
    pub fn empty() -> (fresh: Defaults)
        ensures
            fresh@ == DefaultsView::none(),
    {
        Defaults {
            remote: None,
            revision: None,
            dest_branch: None,
            upstream: None,
            sync_j: None,
            sync_c: None,
            sync_s: None,
            sync_tags: None,
        }
    }
}

/// A name-value pair exported into a project's environment.
#[derive(Debug, PartialEq, Eq)]
pub struct Annotation {
    pub name: String,
    pub value: String,
    pub keep: String,
}

/// The view of an `Annotation`: its texts as characters and its lists as
/// sequences.
pub struct AnnotationView {
    pub name: Seq<char>,
    pub value: Seq<char>,
    pub keep: Seq<char>,
}

impl View for Annotation {
    type V = AnnotationView;

    open spec fn view(&self) -> AnnotationView {
        AnnotationView { name: self.name@, value: self.value@, keep: self.keep@ }
    }
}

impl Clone for Annotation {
    fn clone(&self) -> (copy: Self)
        ensures
            copy@ == self@,
    {
        Annotation {
            name: self.name.clone(),
            value: self.value.clone(),
            keep: self.keep.clone(),
        }
    }
}

/// A source and a destination, as characters: the view of a `Copyfile` and
/// of a `LinkFile`.
pub struct FilePairView {
    pub src: Seq<char>,
    pub dest: Seq<char>,
}

/// A file of the project that is copied into the workspace tree.
#[derive(Debug, PartialEq, Eq)]
pub struct Copyfile {
    /// Relative to the project.
    pub src: String,
    /// Relative to the top of the tree.
    pub dest: String,
}

impl View for Copyfile {
    type V = FilePairView;

    open spec fn view(&self) -> FilePairView {
        FilePairView { src: self.src@, dest: self.dest@ }
    }
}

impl Clone for Copyfile {
    fn clone(&self) -> (copy: Self)
        ensures
            copy@ == self@,
    {
        Copyfile { src: self.src.clone(), dest: self.dest.clone() }
    }
}

/// A file of the project that a symbolic link in the workspace tree points
/// at.
#[derive(Debug, PartialEq, Eq)]
pub struct LinkFile {
    /// Relative to the project.
    pub src: String,
    /// Relative to the top of the tree.
    pub dest: String,
}

impl View for LinkFile {
    type V = FilePairView;

    open spec fn view(&self) -> FilePairView {
        FilePairView { src: self.src@, dest: self.dest@ }
    }
}

impl Clone for LinkFile {
    fn clone(&self) -> (copy: Self)
        ensures
            copy@ == self@,
    {
        LinkFile { src: self.src.clone(), dest: self.dest.clone() }
    }
}

/// One Git repository to be placed at a path of the workspace, possibly with
/// nested projects that stand for its submodules.
#[derive(Debug, PartialEq, Eq)]
pub struct Project {
    pub annotation: Option<Vec<Annotation>>,
    /// Nested projects.
    pub project: Option<Vec<Project>>,
    pub copyfile: Option<Vec<Copyfile>>,
    pub linkfile: Option<Vec<LinkFile>>,
    /// Appended to the remote's fetch prefix to form the clone URL.
    pub name: String,
    /// Where the working directory is placed; the name when absent.
    pub path: Option<String>,
    /// Name of a remote; the default's remote when absent.
    pub remote: Option<String>,
    pub revision: Option<String>,
    pub dest_branch: Option<String>,
    /// Whitespace or comma separated list of groups.
    pub groups: Option<String>,
    pub sync_c: Option<String>,
    pub sync_s: Option<String>,
    pub sync_tags: Option<String>,
    pub upstream: Option<String>,
    pub clone_depth: Option<String>,
    pub force_path: Option<String>,
}

/// The view of a `Project`: its texts as characters and its lists as
/// sequences.
pub struct ProjectView {
    pub annotations: Seq<AnnotationView>,
    pub children: Seq<ProjectView>,
    pub copyfiles: Seq<FilePairView>,
    pub linkfiles: Seq<FilePairView>,
    pub name: Seq<char>,
    pub path: Option<Seq<char>>,
    pub remote: Option<Seq<char>>,
    pub revision: Option<Seq<char>>,
    pub dest_branch: Option<Seq<char>>,
    pub groups: Option<Seq<char>>,
    pub sync_c: Option<Seq<char>>,
    pub sync_s: Option<Seq<char>>,
    pub sync_tags: Option<Seq<char>>,
    pub upstream: Option<Seq<char>>,
    pub clone_depth: Option<Seq<char>>,
    pub force_path: Option<Seq<char>>,
}

impl Project {
    /// The view of a project holds the views of the projects nested in it.
    pub open spec fn model(self) -> ProjectView
        decreases self,
    {
        let nested = items_of(self.project);
        ProjectView {
            annotations: views_of(items_of(self.annotation)),
            children: Seq::new(
                nested.len(),
                |i: int|
                    if 0 <= i < nested.len() {
                        nested[i].model()
                    } else {
                        arbitrary()
                    },
            ),
            copyfiles: views_of(items_of(self.copyfile)),
            linkfiles: views_of(items_of(self.linkfile)),
            name: self.name@,
            path: text_of(self.path),
            remote: text_of(self.remote),
            revision: text_of(self.revision),
            dest_branch: text_of(self.dest_branch),
            groups: text_of(self.groups),
            sync_c: text_of(self.sync_c),
            sync_s: text_of(self.sync_s),
            sync_tags: text_of(self.sync_tags),
            upstream: text_of(self.upstream),
            clone_depth: text_of(self.clone_depth),
            force_path: text_of(self.force_path),
        }
    }
}

impl View for Project {
    type V = ProjectView;

    open spec fn view(&self) -> ProjectView {
        self.model()
    }
}

/// Copies of `projects`, each with all that is nested in it.
fn copy_projects(projects: &Vec<Project>) -> (copies: Vec<Project>)
    ensures
        copies.len() == projects.len(),
        forall|j: int| 0 <= j < projects.len() ==> (#[trigger] copies[j])@ == projects[j]@,
    decreases projects, 0nat,
{
    let mut copies: Vec<Project> = Vec::new();
    let mut i: usize = 0;
    while i < projects.len()
        invariant
            i <= projects.len(),
            copies.len() == i,
            forall|j: int| 0 <= j < i ==> (#[trigger] copies[j])@ == projects[j]@,
        decreases projects.len() - i,
    {
        proof {
            vstd::std_specs::vec::axiom_vec_index_decreases(*projects, i as int);
        }
        let child = copy_project(&projects[i]);
        copies.push(child);
        i += 1;
    }
    copies
}

/// A copy of `project` with all that is nested in it.
fn copy_project(project: &Project) -> (copy: Project)
    ensures
        copy@ == project@,
    decreases project, 1nat,
{
    let nested = match &project.project {
        Some(children) => Some(copy_projects(children)),
        None => None,
    };
    let copy = Project {
        annotation: project.annotation.clone(),
        project: nested,
        copyfile: project.copyfile.clone(),
        linkfile: project.linkfile.clone(),
        name: project.name.clone(),
        path: project.path.clone(),
        remote: project.remote.clone(),
        revision: project.revision.clone(),
        dest_branch: project.dest_branch.clone(),
        groups: project.groups.clone(),
        sync_c: project.sync_c.clone(),
        sync_s: project.sync_s.clone(),
        sync_tags: project.sync_tags.clone(),
        upstream: project.upstream.clone(),
        clone_depth: project.clone_depth.clone(),
        force_path: project.force_path.clone(),
    };
    proof {
        assert(copy@.annotations =~= project@.annotations);
        assert(copy@.copyfiles =~= project@.copyfiles);
        assert(copy@.linkfiles =~= project@.linkfiles);
        assert(copy@.children =~= project@.children);
    }
    copy
}

impl Clone for Project {
    fn clone(&self) -> (copy: Self)
        ensures
            copy@ == self@,
    {
        copy_project(self)
    }
}

/// Changes the attributes of the projects of a given name.
#[derive(Debug, PartialEq, Eq)]
pub struct ExtendProject {
    pub name: String,
    /// Limits the change to the project checked out at this path.
    pub path: Option<String>,
    /// Groups that are added to those the project has.
    pub groups: Option<String>,
    /// Replaces the project's revision.
    pub revision: Option<String>,
    /// Replaces the project's remote.
    pub remote: Option<String>,
}

/// The view of an `ExtendProject`: its texts as characters and its lists as
/// sequences.
pub struct ExtendProjectView {
    pub name: Seq<char>,
    pub path: Option<Seq<char>>,
    pub groups: Option<Seq<char>>,
    pub revision: Option<Seq<char>>,
    pub remote: Option<Seq<char>>,
}

impl View for ExtendProject {
    type V = ExtendProjectView;

    open spec fn view(&self) -> ExtendProjectView {
        ExtendProjectView {
            name: self.name@,
            path: text_of(self.path),
            groups: text_of(self.groups),
            revision: text_of(self.revision),
            remote: text_of(self.remote),
        }
    }
}

impl Clone for ExtendProject {
    fn clone(&self) -> (copy: Self)
        ensures
            copy@ == self@,
    {
        ExtendProject {
            name: self.name.clone(),
            path: self.path.clone(),
            groups: self.groups.clone(),
            revision: self.revision.clone(),
            remote: self.remote.clone(),
        }
    }
}

/// Deletes the projects of a given name from the project table.
#[derive(Debug, PartialEq, Eq)]
pub struct RemoveProject {
    pub name: String,
}

impl View for RemoveProject {
    type V = Seq<char>;

    open spec fn view(&self) -> Seq<char> {
        self.name@
    }
}

impl Clone for RemoveProject {
    fn clone(&self) -> (copy: Self)
        ensures
            copy@ == self@,
    {
        RemoveProject { name: self.name.clone() }
    }
}

/// Names another manifest file whose elements come before those of the file
/// that names it.
#[derive(Debug, PartialEq, Eq)]
pub struct Include {
    /// Relative to the root of the manifest repository.
    pub name: String,
}

impl View for Include {
    type V = Seq<char>;

    open spec fn view(&self) -> Seq<char> {
        self.name@
    }
}

impl Clone for Include {
    fn clone(&self) -> (copy: Self)
        ensures
            copy@ == self@,
    {
        Include { name: self.name.clone() }
    }
}

/// The URL of a manifest server.
#[derive(Debug, PartialEq, Eq)]
pub struct ManifestServer {
    pub url: String,
}

impl View for ManifestServer {
    type V = Seq<char>;

    open spec fn view(&self) -> Seq<char> {
        self.url@
    }
}

impl Clone for ManifestServer {
    fn clone(&self) -> (copy: Self)
        ensures
            copy@ == self@,
    {
        ManifestServer { url: self.url.clone() }
    }
}

/// The project that holds the hooks, and the hooks that are enabled.
#[derive(Debug, PartialEq, Eq)]
pub struct RepoHooks {
    pub in_project: String,
    pub enabled_list: String,
}

/// The view of a `RepoHooks`: its texts as characters and its lists as
/// sequences.
pub struct RepoHooksView {
    pub in_project: Seq<char>,
    pub enabled_list: Seq<char>,
}

impl View for RepoHooks {
    type V = RepoHooksView;

    open spec fn view(&self) -> RepoHooksView {
        RepoHooksView { in_project: self.in_project@, enabled_list: self.enabled_list@ }
    }
}

impl Clone for RepoHooks {
    fn clone(&self) -> (copy: Self)
        ensures
            copy@ == self@,
    {
        RepoHooks {
            in_project: self.in_project.clone(),
            enabled_list: self.enabled_list.clone(),
        }
    }
}

/// A notice element; it carries nothing that is read.
#[derive(Debug, PartialEq, Eq, Clone, Copy)]
pub struct Notice {}

/// The views of a list of records.
pub open spec fn views_of<T: View>(records: Seq<T>) -> Seq<T::V> {
    records.map_values(|record: T| record@)
}

/// The views of an optional record.
pub open spec fn view_of<T: View>(record: Option<T>) -> Option<T::V> {
    match record {
        Some(r) => Some(r@),
        None => None,
    }
}

/// The elements of one manifest file.
#[derive(Debug, PartialEq, Eq)]
pub struct Manifest {
    pub notice: Option<Notice>,
    pub remote: Option<Vec<Remote>>,
    /// At most one default element may be specified.
    pub default: Option<Defaults>,
    pub manifest_server: Option<ManifestServer>,
    pub remove_project: Option<Vec<RemoveProject>>,
    pub project: Option<Vec<Project>>,
    pub extend_project: Option<Vec<ExtendProject>>,
    pub repo_hooks: Option<RepoHooks>,
    pub includes: Option<Vec<Include>>,
}

/// The view of a `Manifest`: its texts as characters and its lists as
/// sequences.
pub struct ManifestView {
    pub notice: bool,
    pub remotes: Seq<RemoteView>,
    pub default: Option<DefaultsView>,
    pub manifest_server: Option<Seq<char>>,
    pub removes: Seq<Seq<char>>,
    pub projects: Seq<ProjectView>,
    pub extends: Seq<ExtendProjectView>,
    pub repo_hooks: Option<RepoHooksView>,
    pub includes: Seq<Seq<char>>,
}

impl View for Manifest {
    type V = ManifestView;

    open spec fn view(&self) -> ManifestView {
        ManifestView {
            notice: self.notice is Some,
            remotes: views_of(items_of(self.remote)),
            default: view_of(self.default),
            manifest_server: view_of(self.manifest_server),
            removes: views_of(items_of(self.remove_project)),
            projects: views_of(items_of(self.project)),
            extends: views_of(items_of(self.extend_project)),
            repo_hooks: view_of(self.repo_hooks),
            includes: views_of(items_of(self.includes)),
        }
    }
}

impl Clone for Manifest {
    fn clone(&self) -> (copy: Self)
        ensures
            copy@ == self@,
    {
        let copy = Manifest {
            notice: self.notice,
            remote: self.remote.clone(),
            default: self.default.clone(),
            manifest_server: self.manifest_server.clone(),
            remove_project: self.remove_project.clone(),
            project: self.project.clone(),
            extend_project: self.extend_project.clone(),
            repo_hooks: self.repo_hooks.clone(),
            includes: self.includes.clone(),
        };
        proof {
            assert(copy@.remotes =~= self@.remotes);
            assert(copy@.removes =~= self@.removes);
            assert(copy@.projects =~= self@.projects);
            assert(copy@.extends =~= self@.extends);
            assert(copy@.includes =~= self@.includes);
        }
        copy
    }
}

impl Manifest {
    /// A manifest without elements.
    pub fn empty() -> (fresh: Manifest)
        ensures
            fresh@.remotes.len() == 0,
            fresh@.default is None,
            fresh@.removes.len() == 0,
            fresh@.projects.len() == 0,
            fresh@.extends.len() == 0,
            fresh@.includes.len() == 0,
            !fresh@.notice,
            fresh@.manifest_server is None,
            fresh@.repo_hooks is None,
    {
        Manifest {
            notice: None,
            remote: None,
            default: None,
            manifest_server: None,
            remove_project: None,
            project: None,
            extend_project: None,
            repo_hooks: None,
            includes: None,
        }
    }

    /// The project elements of this file, in the order in which they stand;
    /// none where the file has no such element.
    pub fn projects(&self) -> (list: Vec<Project>)
        ensures
            views_of(list@) == self@.projects,
    {
        let list = match &self.project {
            Some(projects) => projects.clone(),
            None => Vec::new(),
        };
        proof {
            assert(views_of(list@) =~= self@.projects);
        }
        list
    }

    /// The remote elements of this file, in the order in which they stand;
    /// none where the file has no such element.
    pub fn remotes(&self) -> (list: Vec<Remote>)
        ensures
            views_of(list@) == self@.remotes,
    {
        let list = match &self.remote {
            Some(remotes) => remotes.clone(),
            None => Vec::new(),
        };
        proof {
            assert(views_of(list@) =~= self@.remotes);
        }
        list
    }
}

} // verus!
