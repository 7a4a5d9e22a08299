//! The file projections of a project: copies and links from the project
//! into the workspace tree. A source must stay within its project and a
//! destination within the workspace; this module resolves the paths and
//! refuses those that leave.

use crate::manifest::FilePairView;
use crate::project::nested_text;
use crate::project::ProjectSpec;
use crate::text::chars_of;
use crate::text::concat_text;
use crate::text::fields;
use crate::text::join;
use crate::text::joined;
use crate::text::split_fields;
use crate::text::split_tokens;
use crate::text::texts;
use crate::text::tokens;
use crate::text::Separator;
use vstd::prelude::*;
use vstd::string::StringExecFns;

verus! {

/// The segment that names the directory itself.
pub open spec fn here() -> Seq<char> {
    seq!['.']
}

/// The segment that names the directory above.
pub open spec fn above() -> Seq<char> {
    seq!['.', '.']
}

/// Where one more segment leads from the directory that `stack` names
/// below a root: an empty segment and `.` stay, `..` goes up and leaves the
/// root where the stack is empty, any other segment goes down.
pub open spec fn step_into(stack: Seq<Seq<char>>, segment: Seq<char>) -> Option<Seq<Seq<char>>> {
    if segment.len() == 0 || segment == here() {
        Some(stack)
    } else if segment == above() {
        if stack.len() == 0 {
            None
        } else {
            Some(stack.drop_last())
        }
    } else {
        Some(stack.push(segment))
    }
}

/// Where a row of segments leads from `stack`, or nothing where it leaves
/// the root on the way.
pub open spec fn walk(stack: Seq<Seq<char>>, segments: Seq<Seq<char>>) -> Option<Seq<Seq<char>>>
    decreases segments.len(),
{
    if segments.len() == 0 {
        Some(stack)
    } else {
        match walk(stack, segments.drop_last()) {
            Some(sofar) => step_into(sofar, segments.last()),
            None => None,
        }
    }
}

/// Whether a path starts at the root of the file system.
pub open spec fn is_absolute(path: Seq<char>) -> bool {
    path.len() > 0 && path[0] == '/'
}

/// The names that a relative path leads through below its root, or nothing
/// where the path is absolute or leaves the root.
pub open spec fn resolve_inside(path: Seq<char>) -> Option<Seq<Seq<char>>> {
    if is_absolute(path) {
        None
    } else {
        walk(Seq::empty(), fields(path, Separator::Slash))
    }
}

/// Whether a segment is a plain name: not empty, not `.` and not `..`.
pub open spec fn plain(segment: Seq<char>) -> bool {
    segment.len() > 0 && segment != here() && segment != above()
}

/// A walk from plain names ends at plain names only.
pub proof fn lemma_walk_ends_plain(stack: Seq<Seq<char>>, segments: Seq<Seq<char>>)
    requires
        forall|i: int| 0 <= i < stack.len() ==> plain(#[trigger] stack[i]),
    ensures
        walk(stack, segments) is Some ==> forall|i: int|
            0 <= i < walk(stack, segments)->0.len() ==> plain(
                #[trigger] walk(stack, segments)->0[i],
            ),
    decreases segments.len(),
{
    if segments.len() > 0 {
        lemma_walk_ends_plain(stack, segments.drop_last());
    }
}

/// A walk that begins by going up from the root leaves the root, whatever
/// follows.
pub proof fn lemma_leading_above_escapes(segments: Seq<Seq<char>>)
    requires
        segments.len() > 0,
        segments[0] == above(),
    ensures
        walk(Seq::empty(), segments) is None,
    decreases segments.len(),
{
    if segments.len() == 1 {
        assert(segments.drop_last() =~= Seq::<Seq<char>>::empty());
        assert(walk(Seq::empty(), segments.drop_last()) == Some(Seq::<Seq<char>>::empty()));
    } else {
        assert(segments.drop_last()[0] == segments[0]);
        lemma_leading_above_escapes(segments.drop_last());
    }
}

/// Resolves a relative path to the names it leads through below its root.
pub fn resolve_path(path: &str) -> (inside: Option<Vec<String>>)
    ensures
        match inside {
            Some(names) => resolve_inside(path@) == Some(texts(names@)),
            None => resolve_inside(path@) is None,
        },
{
    let segments = split_fields(path, Separator::Slash);
    let chars = chars_of(path);
    if chars.len() > 0 && chars[0] == '/' {
        return None;
    }
    let here_text = String::from_str(".");
    let above_text = String::from_str("..");
    proof {
        reveal_strlit(".");
        reveal_strlit("..");
        assert(here_text@ =~= here());
        assert(above_text@ =~= above());
    }
    let mut stack: Vec<String> = Vec::new();
    let mut i: usize = 0;
    proof {
        assert(texts(segments@).take(0) =~= Seq::<Seq<char>>::empty());
        assert(texts(stack@) =~= Seq::<Seq<char>>::empty());
    }
    while i < segments.len()
        invariant
            i <= segments.len(),
            here_text@ == here(),
            above_text@ == above(),
            !is_absolute(path@),
            texts(segments@) == fields(path@, Separator::Slash),
            walk(Seq::empty(), texts(segments@).take(i as int)) == Some(texts(stack@)),
        decreases segments.len() - i,
    {
        let ghost before = texts(stack@);
        proof {
            assert(texts(segments@).take(i + 1).drop_last() =~= texts(segments@).take(i as int));
            assert(texts(segments@).take(i + 1).last() == segments[i as int]@);
        }
        let segment = &segments[i];
        if segment.as_str().is_empty() || *segment == here_text {
        } else if *segment == above_text {
            if stack.len() == 0 {
                proof {
                    lemma_walk_stays_lost(texts(segments@), i + 1);
                }
                return None;
            }
            stack.pop();
            proof {
                assert(texts(stack@) =~= before.drop_last());
            }
        } else {
            stack.push(segment.clone());
            proof {
                assert(texts(stack@) =~= before.push(segment@));
            }
        }
        i = i + 1;
    }
    proof {
        assert(texts(segments@).take(segments.len() as int) =~= texts(segments@));
    }
    Some(stack)
}

/// A walk that has left the root does not come back.
pub proof fn lemma_walk_stays_lost(segments: Seq<Seq<char>>, k: int)
    requires
        0 <= k <= segments.len(),
        walk(Seq::empty(), segments.take(k)) is None,
    ensures
        walk(Seq::empty(), segments) is None,
    decreases segments.len() - k,
{
    if k == segments.len() {
        assert(segments.take(k) =~= segments);
    } else {
        assert(segments.take(k + 1).drop_last() =~= segments.take(k));
        lemma_walk_stays_lost(segments, k + 1);
    }
}

/// The path of the place that `names` lead to below `base`.
pub open spec fn placed(base: Seq<char>, names: Seq<Seq<char>>) -> Seq<char> {
    if names.len() == 0 {
        base
    } else {
        nested_text(base, joined(names, seq!['/']))
    }
}

/// The path of the place that `names` lead to below `base`.
pub fn place(base: &String, names: &Vec<String>) -> (path: String)
    ensures
        path@ == placed(base@, texts(names@)),
{
    if names.len() == 0 {
        return base.clone();
    }
    proof {
        reveal_strlit("/");
        assert("/"@ =~= seq!['/']);
    }
    let below = join(names, "/");
    let mut path = concat_text(base.as_str(), "/");
    path.append(below.as_str());
    path
}

/// Whether a projection copies a file or makes a link.
#[derive(Debug, Clone, Copy, PartialEq, Eq)]
pub enum OverlayKind {
    /// The destination becomes a copy of the source.
    Copy,
    /// The destination becomes a symbolic link that points at the source.
    Link,
}

/// One projection that may be carried out: both paths are resolved.
#[derive(Debug, PartialEq, Eq)]
pub struct OverlayStep {
    pub kind: OverlayKind,
    /// The source, below the root of the project.
    pub src: String,
    /// The destination, below the root of the workspace.
    pub dest: String,
}

/// The view of an `OverlayStep`: its texts as characters and its lists as
/// sequences.
pub struct OverlayStepView {
    pub kind: OverlayKind,
    pub src: Seq<char>,
    pub dest: Seq<char>,
}

impl View for OverlayStep {
    type V = OverlayStepView;

    open spec fn view(&self) -> OverlayStepView {
        OverlayStepView { kind: self.kind, src: self.src@, dest: self.dest@ }
    }
}

/// Why a projection is not carried out.
#[derive(Debug, PartialEq, Eq)]
pub enum OverlayError {
    /// The source leaves the project or the destination leaves the
    /// workspace. The two paths are given as the manifest has them.
    PathEscape { src: String, dest: String },
    /// There is nothing at the source.
    MissingSource { src: String },
    /// What is at the path is not what the projection needs there.
    NotAFile { path: String },
}

/// The view of an `OverlayError`: its texts as characters and its lists as
/// sequences.
pub enum OverlayErrorView {
    PathEscape { src: Seq<char>, dest: Seq<char> },
    MissingSource { src: Seq<char> },
    NotAFile { path: Seq<char> },
}

impl View for OverlayError {
    type V = OverlayErrorView;

    open spec fn view(&self) -> OverlayErrorView {
        match self {
            OverlayError::PathEscape { src, dest } => OverlayErrorView::PathEscape {
                src: src@,
                dest: dest@,
            },
            OverlayError::MissingSource { src } => OverlayErrorView::MissingSource { src: src@ },
            OverlayError::NotAFile { path } => OverlayErrorView::NotAFile { path: path@ },
        }
    }
}

impl OverlayError {
    /// What the error says, as text.
    pub open spec fn message_text(error: OverlayErrorView) -> Seq<char> {
        match error {
            OverlayErrorView::PathEscape { src, dest } => "path escape: "@ + src + " -> "@ + dest,
            OverlayErrorView::MissingSource { src } => "missing source: "@ + src,
            OverlayErrorView::NotAFile { path } => "not a file: "@ + path,
        }
    }

    /// What the error says, as text.
    pub fn message(&self) -> (text: String)
        ensures
            text@ == Self::message_text(self@),
    {
        match self {
            OverlayError::PathEscape { src, dest } => {
                let mut text = concat_text("path escape: ", src.as_str());
                text.append(" -> ");
                text.append(dest.as_str());
                text
            },
            OverlayError::MissingSource { src } => concat_text("missing source: ", src.as_str()),
            OverlayError::NotAFile { path } => concat_text("not a file: ", path.as_str()),
        }
    }
}

/// The view of a planned projection or of the reason why there is none.
pub open spec fn plan_view(outcome: Result<OverlayStep, OverlayError>) -> Result<
    OverlayStepView,
    OverlayErrorView,
> {
    match outcome {
        Ok(step) => Ok(step@),
        Err(error) => Err(error@),
    }
}

/// What is planned for a pair of a source and a destination: the source
/// resolved below the project, which stands at `project_path` below the
/// workspace `root`, and the destination resolved below the workspace; or
/// a path escape where one of the two leaves its root.
pub open spec fn planned(
    kind: OverlayKind,
    pair: FilePairView,
    root: Seq<char>,
    project_path: Seq<char>,
) -> Result<OverlayStepView, OverlayErrorView> {
    let src = resolve_inside(pair.src);
    let dest = resolve_inside(pair.dest);
    if src is None || dest is None {
        Err(OverlayErrorView::PathEscape { src: pair.src, dest: pair.dest })
    } else {
        Ok(
            OverlayStepView {
                kind: kind,
                src: placed(nested_text(root, project_path), src->0),
                dest: placed(root, dest->0),
            },
        )
    }
}

/// Containment: a pair whose source is absolute, or begins by going up, is
/// planned as a path escape, whatever its destination and whatever stands
/// behind the first segment.
pub proof fn law_source_that_leaves_is_refused(
    kind: OverlayKind,
    pair: FilePairView,
    root: Seq<char>,
    project_path: Seq<char>,
)
    requires
        is_absolute(pair.src) || fields(pair.src, Separator::Slash)[0] == above(),
    ensures
        planned(kind, pair, root, project_path) == Err::<OverlayStepView, OverlayErrorView>(
            OverlayErrorView::PathEscape { src: pair.src, dest: pair.dest },
        ),
{
    if !is_absolute(pair.src) {
        crate::text::lemma_fields_hold_no_separator(pair.src, Separator::Slash);
        lemma_leading_above_escapes(fields(pair.src, Separator::Slash));
    }
}

/// Containment: what is planned lies below its root by plain names only.
/// The source of a planned projection is the place of plain names below
/// the project, and its destination the place of plain names below the
/// workspace.
pub proof fn law_planned_stays_inside(
    kind: OverlayKind,
    pair: FilePairView,
    root: Seq<char>,
    project_path: Seq<char>,
)
    requires
        planned(kind, pair, root, project_path) is Ok,
    ensures
        exists|from: Seq<Seq<char>>, to: Seq<Seq<char>>|
            {
                &&& forall|i: int| 0 <= i < from.len() ==> plain(#[trigger] from[i])
                &&& forall|i: int| 0 <= i < to.len() ==> plain(#[trigger] to[i])
                &&& #[trigger] placed(nested_text(root, project_path), from) == planned(
                    kind,
                    pair,
                    root,
                    project_path,
                )->Ok_0.src
                &&& #[trigger] placed(root, to) == planned(kind, pair, root, project_path)->Ok_0.dest
            },
{
    let from = resolve_inside(pair.src)->0;
    let to = resolve_inside(pair.dest)->0;
    lemma_walk_ends_plain(Seq::empty(), fields(pair.src, Separator::Slash));
    lemma_walk_ends_plain(Seq::empty(), fields(pair.dest, Separator::Slash));
    assert(placed(nested_text(root, project_path), from) == planned(
        kind,
        pair,
        root,
        project_path,
    )->Ok_0.src);
    assert(placed(root, to) == planned(kind, pair, root, project_path)->Ok_0.dest);
}

/// Plans one projection.
pub fn plan_step(
    kind: OverlayKind,
    src: &String,
    dest: &String,
    root: &String,
    project_path: &String,
) -> (outcome: Result<OverlayStep, OverlayError>)
    ensures
        plan_view(outcome) == planned(
            kind,
            FilePairView { src: src@, dest: dest@ },
            root@,
            project_path@,
        ),
{
    let inside_project = resolve_path(src.as_str());
    let inside_root = resolve_path(dest.as_str());
    match (inside_project, inside_root) {
        (Some(from), Some(to)) => {
            proof {
                reveal_strlit("/");
                assert("/"@ =~= seq!['/']);
            }
            let mut project_root = concat_text(root.as_str(), "/");
            project_root.append(project_path.as_str());
            Ok(OverlayStep { kind: kind, src: place(&project_root, &from), dest: place(root, &to) })
        },
        _ => Err(OverlayError::PathEscape { src: src.clone(), dest: dest.clone() }),
    }
}

/// What is planned for a project: one outcome for each of its copies, in
/// their order, then one for each of its links.
pub open spec fn planned_all(
    copies: Seq<FilePairView>,
    links: Seq<FilePairView>,
    root: Seq<char>,
    project_path: Seq<char>,
) -> Seq<Result<OverlayStepView, OverlayErrorView>> {
    copies.map_values(|pair: FilePairView| planned(OverlayKind::Copy, pair, root, project_path))
        + links.map_values(
        |pair: FilePairView| planned(OverlayKind::Link, pair, root, project_path),
    )
}

/// Plans the projections of a project into the workspace at `root`. A pair
/// that leaves its root gives a path escape and stops none of the others.
pub fn plan_overlay(project: &ProjectSpec, root: &String) -> (plan: Vec<
    Result<OverlayStep, OverlayError>,
>)
    ensures
        plan@.map_values(|outcome: Result<OverlayStep, OverlayError>| plan_view(outcome))
            == planned_all(project@.copyfiles, project@.linkfiles, root@, project@.path),
{
    let mut plan: Vec<Result<OverlayStep, OverlayError>> = Vec::new();
    let mut i: usize = 0;
    while i < project.copyfiles.len()
        invariant
            i <= project.copyfiles.len(),
            plan.len() == i,
            forall|j: int|
                0 <= j < i ==> plan_view(#[trigger] plan[j]) == planned(
                    OverlayKind::Copy,
                    project.copyfiles[j]@,
                    root@,
                    project@.path,
                ),
        decreases project.copyfiles.len() - i,
    {
        let pair = &project.copyfiles[i];
        plan.push(plan_step(OverlayKind::Copy, &pair.src, &pair.dest, root, &project.path));
        i = i + 1;
    }
    let copies = project.copyfiles.len();
    let mut k: usize = 0;
    while k < project.linkfiles.len()
        invariant
            k <= project.linkfiles.len(),
            copies == project.copyfiles.len(),
            plan.len() == copies + k,
            forall|j: int|
                0 <= j < copies ==> plan_view(#[trigger] plan[j]) == planned(
                    OverlayKind::Copy,
                    project.copyfiles[j]@,
                    root@,
                    project@.path,
                ),
            forall|j: int|
                0 <= j < k ==> plan_view(#[trigger] plan[copies + j]) == planned(
                    OverlayKind::Link,
                    project.linkfiles[j]@,
                    root@,
                    project@.path,
                ),
        decreases project.linkfiles.len() - k,
    {
        let pair = &project.linkfiles[k];
        plan.push(plan_step(OverlayKind::Link, &pair.src, &pair.dest, root, &project.path));
        k = k + 1;
    }
    proof {
        let views = plan@.map_values(
            |outcome: Result<OverlayStep, OverlayError>| plan_view(outcome),
        );
        let wanted = planned_all(project@.copyfiles, project@.linkfiles, root@, project@.path);
        assert(views.len() == wanted.len());
        assert forall|j: int| 0 <= j < views.len() implies views[j] == wanted[j] by {
            if j < copies {
                assert(plan_view(plan[j]) == planned(
                    OverlayKind::Copy,
                    project.copyfiles[j]@,
                    root@,
                    project@.path,
                ));
            } else {
                assert(plan_view(plan[copies + (j - copies)]) == planned(
                    OverlayKind::Link,
                    project.linkfiles[j - copies]@,
                    root@,
                    project@.path,
                ));
            }
        }
        assert(views =~= wanted);
    }
    plan
}

/// What stands at a path of the file system.
#[derive(Debug, Clone, Copy, PartialEq, Eq)]
pub enum NodeKind {
    /// Nothing.
    Missing,
    /// A regular file.
    File,
    /// A directory.
    Directory,
    /// A symbolic link.
    Symlink,
    /// Anything else.
    Other,
}

/// Whether the place that `path` names is the place that `base` names or
/// one below it: the names of `base` are the first names of `path`.
pub open spec fn within(base: Seq<char>, path: Seq<char>) -> bool {
    let outer = tokens(base, Separator::Slash);
    let inner = tokens(path, Separator::Slash);
    outer.len() <= inner.len() && inner.take(outer.len() as int) == outer
}

/// Whether the place that `path` names is at or below the one that `base`
/// names.
pub fn is_within(base: &str, path: &str) -> (inside: bool)
    ensures
        inside == within(base@, path@),
{
    let outer = split_tokens(base, Separator::Slash);
    let inner = split_tokens(path, Separator::Slash);
    if outer.len() > inner.len() {
        return false;
    }
    let mut i: usize = 0;
    while i < outer.len()
        invariant
            i <= outer.len() <= inner.len(),
            texts(outer@) == tokens(base@, Separator::Slash),
            texts(inner@) == tokens(path@, Separator::Slash),
            forall|j: int| 0 <= j < i ==> texts(inner@)[j] == texts(outer@)[j],
        decreases outer.len() - i,
    {
        if !(outer[i] == inner[i]) {
            assert(texts(inner@).take(outer.len() as int)[i as int] != texts(outer@)[i as int]);
            return false;
        }
        i = i + 1;
    }
    proof {
        assert(texts(inner@).take(outer.len() as int) =~= texts(outer@));
    }
    true
}

/// What was found on disk for one planned projection: what stands at the
/// source and at the destination, and where the two, the project and the
/// workspace really are once every symbolic link on the way is followed.
#[derive(Debug, PartialEq, Eq)]
pub struct Probe {
    pub src_kind: NodeKind,
    pub dest_kind: NodeKind,
    pub src_real: String,
    pub dest_real: String,
    pub project_real: String,
    pub root_real: String,
}

/// The view of a `Probe`: its texts as characters and its lists as
/// sequences.
pub struct ProbeView {
    pub src_kind: NodeKind,
    pub dest_kind: NodeKind,
    pub src_real: Seq<char>,
    pub dest_real: Seq<char>,
    pub project_real: Seq<char>,
    pub root_real: Seq<char>,
}

impl View for Probe {
    type V = ProbeView;

    open spec fn view(&self) -> ProbeView {
        ProbeView {
            src_kind: self.src_kind,
            dest_kind: self.dest_kind,
            src_real: self.src_real@,
            dest_real: self.dest_real@,
            project_real: self.project_real@,
            root_real: self.root_real@,
        }
    }
}

/// Why a planned projection is refused for what was found on disk, if it
/// is. The real places are looked at first: the source must be within the
/// project and the destination within the workspace. Then the source: it
/// must be there, and be a regular file, for a link as for a copy. Then
/// the destination: a copy goes where nothing or a regular file is; a link
/// goes there too, and where a symbolic link is, since that is what a link
/// made before has left.
pub open spec fn refusal(step: OverlayStepView, probe: ProbeView) -> Option<OverlayErrorView> {
    if !within(probe.project_real, probe.src_real) || !within(probe.root_real, probe.dest_real) {
        Some(OverlayErrorView::PathEscape { src: step.src, dest: step.dest })
    } else if probe.src_kind is Missing {
        Some(OverlayErrorView::MissingSource { src: step.src })
    } else {
        let src_fits = probe.src_kind is File;
        let dest_fits = match step.kind {
            OverlayKind::Copy => probe.dest_kind is Missing || probe.dest_kind is File,
            OverlayKind::Link => probe.dest_kind is Missing || probe.dest_kind is File
                || probe.dest_kind is Symlink,
        };
        if !src_fits {
            Some(OverlayErrorView::NotAFile { path: step.src })
        } else if !dest_fits {
            Some(OverlayErrorView::NotAFile { path: step.dest })
        } else {
            None
        }
    }
}

/// Decides whether a planned projection may be carried out, given what was
/// found on disk.
pub fn check_step(step: &OverlayStep, probe: &Probe) -> (outcome: Result<(), OverlayError>)
    ensures
        match outcome {
            Ok(_) => refusal(step@, probe@) is None,
            Err(error) => refusal(step@, probe@) == Some(error@),
        },
{
    if !is_within(probe.project_real.as_str(), probe.src_real.as_str()) || !is_within(
        probe.root_real.as_str(),
        probe.dest_real.as_str(),
    ) {
        return Err(OverlayError::PathEscape { src: step.src.clone(), dest: step.dest.clone() });
    }
    match probe.src_kind {
        NodeKind::Missing => {
            return Err(OverlayError::MissingSource { src: step.src.clone() });
        },
        NodeKind::File => {},
        _ => {
            return Err(OverlayError::NotAFile { path: step.src.clone() });
        },
    }
    let dest_fits = match (step.kind, probe.dest_kind) {
        (_, NodeKind::Missing) => true,
        (_, NodeKind::File) => true,
        (OverlayKind::Link, NodeKind::Symlink) => true,
        _ => false,
    };
    if !dest_fits {
        return Err(OverlayError::NotAFile { path: step.dest.clone() });
    }
    Ok(())
}

} // verus!
