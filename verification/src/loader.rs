//! Loading a manifest with the files it names. Reading and parsing a file
//! is the caller's work; the loader says which file it needs next, takes
//! what reading it came to, and puts the documents in order: those that a
//! file names come before the file itself, each with all that it names in
//! turn, in the order in which the file names them.

use crate::manifest::views_of;
use crate::manifest::Manifest;
use crate::manifest::ManifestView;
use crate::project::nested_text;
use crate::text::concat_text;
use crate::text::fields;
use crate::text::texts;
use vstd::prelude::*;
use vstd::string::StringExecFns;

verus! {

/// One manifest file: where it was read from and what it holds.
#[derive(Debug, PartialEq, Eq)]
pub struct RawDocument {
    pub path: String,
    pub manifest: Manifest,
}

/// The view of a `RawDocument`: its texts as characters and its lists as
/// sequences.
pub struct RawDocumentView {
    pub path: Seq<char>,
    pub manifest: ManifestView,
}

impl View for RawDocument {
    type V = RawDocumentView;

    open spec fn view(&self) -> RawDocumentView {
        RawDocumentView { path: self.path@, manifest: self.manifest@ }
    }
}

impl Clone for RawDocument {
    fn clone(&self) -> (copy: Self)
        ensures
            copy@ == self@,
    {
        RawDocument { path: self.path.clone(), manifest: self.manifest.clone() }
    }
}

/// Why loading failed.
#[derive(Debug, PartialEq, Eq)]
pub enum LoadError {
    /// A file names itself, directly or through the files it names. The
    /// chain starts at that file, goes through the files that name one
    /// another, and ends at the same file.
    CyclicInclude { chain: Vec<String> },
    /// There is no file at `path`, which the file at `including` names;
    /// the first file is named by none.
    IncludeNotFound { path: String, including: Option<String> },
    /// The file at `path` is not a manifest; `detail` says what is wrong.
    ManifestParseError { path: String, detail: String },
}

/// The view of a `LoadError`: its texts as characters and its lists as
/// sequences.
pub enum LoadErrorView {
    CyclicInclude { chain: Seq<Seq<char>> },
    IncludeNotFound { path: Seq<char>, including: Option<Seq<char>> },
    ManifestParseError { path: Seq<char>, detail: Seq<char> },
}

impl View for LoadError {
    type V = LoadErrorView;

    open spec fn view(&self) -> LoadErrorView {
        match self {
            LoadError::CyclicInclude { chain } => LoadErrorView::CyclicInclude {
                chain: texts(chain@),
            },
            LoadError::IncludeNotFound { path, including } => LoadErrorView::IncludeNotFound {
                path: path@,
                including: crate::manifest::text_of(*including),
            },
            LoadError::ManifestParseError { path, detail } => LoadErrorView::ManifestParseError {
                path: path@,
                detail: detail@,
            },
        }
    }
}

impl Clone for LoadError {
    fn clone(&self) -> (copy: Self)
        ensures
            copy@ == self@,
    {
        match self {
            LoadError::CyclicInclude { chain } => {
                let copy = LoadError::CyclicInclude { chain: chain.clone() };
                proof {
                    assert(copy@->chain =~= self@->chain);
                }
                copy
            },
            LoadError::IncludeNotFound { path, including } => LoadError::IncludeNotFound {
                path: path.clone(),
                including: including.clone(),
            },
            LoadError::ManifestParseError { path, detail } => LoadError::ManifestParseError {
                path: path.clone(),
                detail: detail.clone(),
            },
        }
    }
}

impl LoadError {
    /// What the error says, as text. A cycle is given by its chain, with
    /// arrows between the files.
    pub open spec fn message_text(error: LoadErrorView) -> Seq<char> {
        match error {
            LoadErrorView::CyclicInclude { chain } => "cyclic include: "@ + crate::text::joined(
                chain,
                " -> "@,
            ),
            LoadErrorView::IncludeNotFound { path, including } => match including {
                Some(by) => "manifest not found: "@ + path + " (included from "@ + by + ")"@,
                None => "manifest not found: "@ + path,
            },
            LoadErrorView::ManifestParseError { path, detail } => "malformed manifest "@ + path
                + ": "@ + detail,
        }
    }

    /// What the error says, as text.
    pub fn message(&self) -> (text: String)
        ensures
            text@ == Self::message_text(self@),
    {
        match self {
            LoadError::CyclicInclude { chain } => {
                let files = crate::text::join(chain, " -> ");
                concat_text("cyclic include: ", files.as_str())
            },
            LoadError::IncludeNotFound { path, including } => {
                let mut text = concat_text("manifest not found: ", path.as_str());
                match including {
                    Some(by) => {
                        text.append(" (included from ");
                        text.append(by.as_str());
                        text.append(")");
                    },
                    None => {},
                }
                text
            },
            LoadError::ManifestParseError { path, detail } => {
                let mut text = concat_text("malformed manifest ", path.as_str());
                text.append(": ");
                text.append(detail.as_str());
                text
            },
        }
    }
}

/// What reading and parsing the file that the loader asked for came to.
#[derive(Debug, PartialEq, Eq)]
pub enum LoadEvent {
    /// The file holds this manifest.
    Parsed(Manifest),
    /// There is no such file.
    Missing,
    /// The file is not a manifest.
    Malformed(String),
}

/// The view of a `LoadEvent`: its texts as characters and its lists as
/// sequences.
pub enum LoadEventView {
    Parsed(ManifestView),
    Missing,
    Malformed(Seq<char>),
}

impl View for LoadEvent {
    type V = LoadEventView;

    open spec fn view(&self) -> LoadEventView {
        match self {
            LoadEvent::Parsed(manifest) => LoadEventView::Parsed(manifest@),
            LoadEvent::Missing => LoadEventView::Missing,
            LoadEvent::Malformed(detail) => LoadEventView::Malformed(detail@),
        }
    }
}

/// A file that was read and whose named files are being loaded.
#[derive(Debug)]
pub struct Frame {
    pub path: String,
    pub manifest: Manifest,
    /// How many of the files that it names have been asked for.
    pub next: usize,
}

/// The view of a `Frame`: its texts as characters and its lists as
/// sequences.
pub struct FrameView {
    pub path: Seq<char>,
    pub manifest: ManifestView,
    pub next: nat,
}

impl View for Frame {
    type V = FrameView;

    open spec fn view(&self) -> FrameView {
        FrameView { path: self.path@, manifest: self.manifest@, next: self.next as nat }
    }
}

/// The state of loading, as a value.
pub struct LoadView {
    /// The directory that named files are looked up in.
    pub root: Seq<char>,
    /// The files whose named files are being loaded, the first file at the
    /// bottom.
    pub stack: Seq<FrameView>,
    /// The documents that are complete, in inclusion order.
    pub documents: Seq<RawDocumentView>,
    /// The file that the loader is waiting for.
    pub pending: Option<Seq<char>>,
    /// Why loading has failed, if it has.
    pub failure: Option<LoadErrorView>,
}

/// The paths of the files on the stack, the first file first.
pub open spec fn paths_of(stack: Seq<FrameView>) -> Seq<Seq<char>> {
    stack.map_values(|frame: FrameView| frame.path)
}

impl LoadView {
    /// The state is consistent. No path stands twice on the stack, and the
    /// file that is waited for is not on it. Of each file on the stack no
    /// more named files were asked for than it names. After a failure
    /// nothing is waited for; and where nothing is waited for and nothing
    /// has failed, the stack is empty.
    pub open spec fn wf(self) -> bool {
        &&& paths_of(self.stack).no_duplicates()
        &&& self.pending is Some ==> !paths_of(self.stack).contains(self.pending->0)
        &&& forall|i: int|
            0 <= i < self.stack.len() ==> (#[trigger] self.stack[i]).next
                <= self.stack[i].manifest.includes.len()
        &&& self.failure is Some ==> self.pending is None
        &&& self.pending is None && self.failure is None ==> self.stack.len() == 0
    }

    /// The state at the start: the first file is waited for.
    pub open spec fn start(root: Seq<char>, name: Seq<char>) -> LoadView {
        LoadView {
            root: root,
            stack: Seq::empty(),
            documents: Seq::empty(),
            pending: Some(nested_text(root, name)),
            failure: None,
        }
    }

    /// Whether loading has ended, well or not.
    pub open spec fn ended(self) -> bool {
        self.pending is None
    }

    /// What follows once nothing is waited for. While the stack is not
    /// empty: where the top file names a file that was not asked for yet,
    /// that file is looked up in the root directory; where it is on the
    /// stack already, loading fails with the chain from that file to the
    /// top and back to it; else it is waited for. Where the top file names
    /// no further file, it is complete: it leaves the stack and its
    /// document follows the others.
    pub open spec fn settled(self) -> LoadView
        decreases self.stack.len(),
    {
        if self.stack.len() == 0 {
            self
        } else {
            let top = self.stack.last();
            if top.next < top.manifest.includes.len() {
                let target = nested_text(self.root, top.manifest.includes[top.next as int]);
                let paths = paths_of(self.stack);
                if paths.contains(target) {
                    let at = paths.index_of(target);
                    LoadView {
                        failure: Some(
                            LoadErrorView::CyclicInclude {
                                chain: paths.subrange(at, paths.len() as int).push(target),
                            },
                        ),
                        ..self
                    }
                } else {
                    LoadView {
                        stack: self.stack.update(
                            self.stack.len() - 1,
                            FrameView { next: top.next + 1, ..top },
                        ),
                        pending: Some(target),
                        ..self
                    }
                }
            } else {
                LoadView {
                    stack: self.stack.drop_last(),
                    documents: self.documents.push(
                        RawDocumentView { path: top.path, manifest: top.manifest },
                    ),
                    ..self
                }.settled()
            }
        }
    }

    /// The state after the caller has said what reading the file that is
    /// waited for came to. A manifest goes on the stack, and what follows
    /// is settled; a missing file and a malformed one end loading with a
    /// failure. Where no file is waited for, nothing changes.
    pub open spec fn fed(self, event: LoadEventView) -> LoadView {
        if self.pending is None {
            self
        } else {
            let path = self.pending->0;
            match event {
                LoadEventView::Parsed(manifest) => LoadView {
                    stack: self.stack.push(FrameView { path: path, manifest: manifest, next: 0 }),
                    pending: None,
                    ..self
                }.settled(),
                LoadEventView::Missing => LoadView {
                    pending: None,
                    failure: Some(
                        LoadErrorView::IncludeNotFound {
                            path: path,
                            including: if self.stack.len() == 0 {
                                None
                            } else {
                                Some(self.stack.last().path)
                            },
                        },
                    ),
                    ..self
                },
                LoadEventView::Malformed(detail) => LoadView {
                    pending: None,
                    failure: Some(LoadErrorView::ManifestParseError { path: path, detail: detail }),
                    ..self
                },
            }
        }
    }
}

/// Settling keeps the state consistent, keeps the documents that were
/// complete, and leaves a file to wait for, a failure, or an empty stack.
pub proof fn lemma_settled(state: LoadView)
    requires
        paths_of(state.stack).no_duplicates(),
        forall|i: int|
            0 <= i < state.stack.len() ==> (#[trigger] state.stack[i]).next
                <= state.stack[i].manifest.includes.len(),
        state.pending is None,
        state.failure is None,
    ensures
        state.settled().wf(),
        state.settled().root == state.root,
        state.documents.len() <= state.settled().documents.len(),
        state.settled().documents.take(state.documents.len() as int) == state.documents,
    decreases state.stack.len(),
{
    if state.stack.len() == 0 {
        assert(state.documents.take(state.documents.len() as int) =~= state.documents);
    } else {
        let top = state.stack.last();
        let paths = paths_of(state.stack);
        if top.next < top.manifest.includes.len() {
            let target = nested_text(state.root, top.manifest.includes[top.next as int]);
            assert(state.settled().documents == state.documents);
            assert(state.documents.take(state.documents.len() as int) =~= state.documents);
            if !paths.contains(target) {
                let after = state.settled();
                assert(paths_of(after.stack) =~= paths);
            }
        } else {
            let rest = LoadView {
                stack: state.stack.drop_last(),
                documents: state.documents.push(
                    RawDocumentView { path: top.path, manifest: top.manifest },
                ),
                ..state
            };
            assert(paths_of(rest.stack) =~= paths.drop_last());
            assert forall|i: int, j: int|
                0 <= i < paths_of(rest.stack).len() && 0 <= j < paths_of(rest.stack).len() && i
                    != j implies paths_of(rest.stack)[i] != paths_of(rest.stack)[j] by {
                assert(paths[i] != paths[j]);
            }
            assert forall|i: int| 0 <= i < rest.stack.len() implies (#[trigger] rest.stack[i]).next
                <= rest.stack[i].manifest.includes.len() by {
                assert(rest.stack[i] == state.stack[i]);
            }
            lemma_settled(rest);
            assert(rest.settled().documents.take(state.documents.len() as int)
                =~= rest.settled().documents.take(rest.documents.len() as int).take(
                state.documents.len() as int,
            ));
            assert(rest.documents.take(state.documents.len() as int) =~= state.documents);
        }
    }
}

/// Taking an event keeps the state consistent.
pub proof fn lemma_fed(state: LoadView, event: LoadEventView)
    requires
        state.wf(),
    ensures
        state.fed(event).wf(),
        state.fed(event).root == state.root,
{
    if state.pending is Some {
        let path = state.pending->0;
        match event {
            LoadEventView::Parsed(manifest) => {
                let pushed = LoadView {
                    stack: state.stack.push(FrameView { path: path, manifest: manifest, next: 0 }),
                    pending: None,
                    ..state
                };
                let paths = paths_of(state.stack);
                assert(paths_of(pushed.stack) =~= paths.push(path));
                assert forall|i: int, j: int|
                    0 <= i < paths.push(path).len() && 0 <= j < paths.push(path).len() && i
                        != j implies paths.push(path)[i] != paths.push(path)[j] by {
                    if i < paths.len() && j < paths.len() {
                        assert(paths[i] != paths[j]);
                    } else if i < paths.len() {
                        assert(paths.contains(paths[i]));
                    } else {
                        assert(paths.contains(paths[j]));
                    }
                }
                if state.failure is None {
                    lemma_settled(pushed);
                } else {
                    assert(false);
                }
            },
            LoadEventView::Missing => {},
            LoadEventView::Malformed(_) => {},
        }
    }
}

/// The directory of the file at `path`: what stands before its last slash,
/// and `.` where it has no slash.
pub open spec fn directory_of(path: Seq<char>) -> Seq<char> {
    let segments = fields(path, crate::text::Separator::Slash);
    if segments.len() <= 1 {
        seq!['.']
    } else {
        crate::text::joined(segments.drop_last(), seq!['/'])
    }
}

/// The name of the file at `path`: what stands behind its last slash.
pub open spec fn file_name_of(path: Seq<char>) -> Seq<char> {
    fields(path, crate::text::Separator::Slash).last()
}

/// Loads a manifest with the files it names, one file at a time.
#[derive(Debug)]
pub struct Loader {
    root: String,
    stack: Vec<Frame>,
    documents: Vec<RawDocument>,
    pending: Option<String>,
    failure: Option<LoadError>,
}

impl View for Loader {
    type V = LoadView;

    closed spec fn view(&self) -> LoadView {
        LoadView {
            root: self.root@,
            stack: views_of(self.stack@),
            documents: views_of(self.documents@),
            pending: crate::manifest::text_of(self.pending),
            failure: crate::manifest::view_of(self.failure),
        }
    }
}

/// The place of `path` on the stack, if it is there.
fn find_on_stack(stack: &Vec<Frame>, path: &String) -> (at: Option<usize>)
    ensures
        at is Some <==> paths_of(views_of(stack@)).contains(path@),
        at is Some ==> at->0 < stack.len() && paths_of(views_of(stack@))[at->0 as int] == path@,
{
    let mut i: usize = 0;
    while i < stack.len()
        invariant
            i <= stack.len(),
            forall|j: int| 0 <= j < i ==> paths_of(views_of(stack@))[j] != path@,
        decreases stack.len() - i,
    {
        if stack[i].path == *path {
            assert(paths_of(views_of(stack@))[i as int] == path@);
            return Some(i);
        }
        i = i + 1;
    }
    None
}

/// The chain of a cycle: the paths on the stack from the place `at` to
/// the top, then `target`.
fn chain_from(stack: &Vec<Frame>, at: usize, target: &String) -> (chain: Vec<String>)
    requires
        at < stack.len(),
    ensures
        texts(chain@) == paths_of(views_of(stack@)).subrange(at as int, stack.len() as int).push(
            target@,
        ),
{
    let mut chain: Vec<String> = Vec::new();
    let mut i: usize = at;
    while i < stack.len()
        invariant
            at <= i <= stack.len(),
            chain.len() == i - at,
            forall|j: int| 0 <= j < i - at ==> (#[trigger] chain[j])@ == stack[at + j]@.path,
        decreases stack.len() - i,
    {
        chain.push(stack[i].path.clone());
        i = i + 1;
    }
    chain.push(target.clone());
    proof {
        assert(texts(chain@) =~= paths_of(views_of(stack@)).subrange(
            at as int,
            stack.len() as int,
        ).push(target@));
    }
    chain
}

impl Loader {
    /// The state is consistent.
    pub closed spec fn wf(&self) -> bool {
        self@.wf()
    }

    /// What being consistent means for the view.
    pub proof fn lemma_wf(&self)
        requires
            self.wf(),
        ensures
            self@.wf(),
    {
    }

    /// Starts loading the manifest `name` of the directory `root`, in which
    /// the files that manifests name are looked up too.
    pub fn start(root: String, name: &String) -> (loader: Loader)
        ensures
            loader.wf(),
            loader@ == LoadView::start(root@, name@),
    {
        proof {
            reveal_strlit("/");
            assert("/"@ =~= seq!['/']);
        }
        let mut first = concat_text(root.as_str(), "/");
        first.append(name.as_str());
        let loader = Loader {
            root: root,
            stack: Vec::new(),
            documents: Vec::new(),
            pending: Some(first),
            failure: None,
        };
        proof {
            assert(loader@.stack =~= Seq::<FrameView>::empty());
            assert(loader@.documents =~= Seq::<RawDocumentView>::empty());
            assert(paths_of(loader@.stack) =~= Seq::<Seq<char>>::empty());
        }
        loader
    }

    /// Starts loading the manifest at `path`; the files that manifests
    /// name are looked up in its directory.
    pub fn start_at(path: &str) -> (loader: Loader)
        ensures
            loader.wf(),
            loader@ == LoadView::start(directory_of(path@), file_name_of(path@)),
    {
        proof {
            crate::text::lemma_fields_hold_no_separator(path@, crate::text::Separator::Slash);
            reveal_strlit(".");
            reveal_strlit("/");
            assert("."@ =~= seq!['.']);
            assert("/"@ =~= seq!['/']);
        }
        let mut segments = crate::text::split_fields(path, crate::text::Separator::Slash);
        let ghost all = texts(segments@);
        let name = match segments.pop() {
            Some(name) => name,
            None => String::new(),
        };
        proof {
            assert(texts(segments@) =~= all.drop_last());
            assert(name@ == all.last());
        }
        let root = if segments.len() == 0 {
            String::from_str(".")
        } else {
            crate::text::join(&segments, "/")
        };
        Loader::start(root, &name)
    }

    /// The file to read and parse next; none once loading has ended.
    pub fn wanted(&self) -> (path: Option<&String>)
        ensures
            match path {
                Some(text) => self@.pending == Some(text@),
                None => self@.pending is None,
            },
    {
        match &self.pending {
            Some(text) => Some(text),
            None => None,
        }
    }

    /// The file that names the file to read next, if a file names it.
    pub fn including(&self) -> (path: Option<&String>)
        ensures
            match path {
                Some(text) => self@.stack.len() > 0 && self@.stack.last().path == text@,
                None => self@.stack.len() == 0,
            },
    {
        if self.stack.len() == 0 {
            None
        } else {
            Some(&self.stack[self.stack.len() - 1].path)
        }
    }

    /// Goes on until a file is waited for, loading has failed, or the
    /// stack is empty.
    fn settle(&mut self)
        requires
            paths_of(old(self)@.stack).no_duplicates(),
            forall|i: int|
                0 <= i < old(self)@.stack.len() ==> (#[trigger] old(self)@.stack[i]).next <= old(
                    self,
                )@.stack[i].manifest.includes.len(),
            old(self)@.pending is None,
            old(self)@.failure is None,
        ensures
            final(self)@ == old(self)@.settled(),
    {
        while self.stack.len() > 0
            invariant
                paths_of(self@.stack).no_duplicates(),
                forall|i: int|
                    0 <= i < self@.stack.len() ==> (#[trigger] self@.stack[i]).next
                        <= self@.stack[i].manifest.includes.len(),
                self@.pending is None,
                self@.failure is None,
                self@.settled() == old(self)@.settled(),
            decreases self.stack.len(),
        {
            let ghost before = self@;
            let last = self.stack.len() - 1;
            let names = match &self.stack[last].manifest.includes {
                Some(list) => list.len(),
                None => 0,
            };
            proof {
                assert(before.stack[last as int] == self.stack[last as int]@);
                assert(before.stack.last().manifest.includes.len() == names);
            }
            if self.stack[last].next < names {
                let target = match &self.stack[last].manifest.includes {
                    Some(list) => {
                        proof {
                            reveal_strlit("/");
                            assert("/"@ =~= seq!['/']);
                        }
                        let mut path = concat_text(self.root.as_str(), "/");
                        path.append(list[self.stack[last].next].name.as_str());
                        path
                    },
                    None => String::new(),
                };
                proof {
                    let top = before.stack.last();
                    assert(target@ == nested_text(
                        before.root,
                        top.manifest.includes[top.next as int],
                    ));
                }
                match find_on_stack(&self.stack, &target) {
                    Some(at) => {
                        let chain = chain_from(&self.stack, at, &target);
                        proof {
                            let paths = paths_of(before.stack);
                            let chosen = paths.index_of(target@);
                            assert(paths[chosen] == target@);
                            assert(chosen == at);
                        }
                        self.failure = Some(LoadError::CyclicInclude { chain: chain });
                        return ;
                    },
                    None => {
                        match self.stack.pop() {
                            Some(top) => {
                                let advanced = Frame {
                                    path: top.path,
                                    manifest: top.manifest,
                                    next: top.next + 1,
                                };
                                self.stack.push(advanced);
                            },
                            None => {},
                        }
                        self.pending = Some(target);
                        proof {
                            let top = before.stack.last();
                            assert(self@.stack =~= before.stack.update(
                                before.stack.len() - 1,
                                FrameView { next: top.next + 1, ..top },
                            ));
                        }
                        return ;
                    },
                }
            } else {
                match self.stack.pop() {
                    Some(top) => {
                        self.documents.push(RawDocument { path: top.path, manifest: top.manifest });
                    },
                    None => {},
                }
                proof {
                    let top = before.stack.last();
                    let paths = paths_of(before.stack);
                    assert(self@.stack =~= before.stack.drop_last());
                    assert(self@.documents =~= before.documents.push(
                        RawDocumentView { path: top.path, manifest: top.manifest },
                    ));
                    assert(paths_of(self@.stack) =~= paths.drop_last());
                    assert forall|i: int, j: int|
                        0 <= i < paths_of(self@.stack).len() && 0 <= j < paths_of(
                            self@.stack,
                        ).len() && i != j implies paths_of(self@.stack)[i] != paths_of(
                        self@.stack,
                    )[j] by {
                        assert(paths[i] != paths[j]);
                    }
                    assert forall|i: int| 0 <= i < self@.stack.len() implies (
                    #[trigger] self@.stack[i]).next <= self@.stack[i].manifest.includes.len() by {
                        assert(self@.stack[i] == before.stack[i]);
                    }
                }
            }
        }
    }

    /// Takes what reading and parsing the wanted file came to.
    pub fn feed(&mut self, event: LoadEvent)
        requires
            old(self).wf(),
        ensures
            final(self).wf(),
            final(self)@ == old(self)@.fed(event@),
    {
        proof {
            lemma_fed(self@, event@);
        }
        let path = match self.pending.take() {
            Some(path) => path,
            None => {
                return ;
            },
        };
        match event {
            LoadEvent::Parsed(manifest) => {
                let ghost paths = paths_of(self@.stack);
                self.stack.push(Frame { path: path, manifest: manifest, next: 0 });
                proof {
                    let pushed = old(self)@.stack.push(
                        FrameView { path: path@, manifest: manifest@, next: 0 },
                    );
                    assert(self@.stack =~= pushed);
                    assert(paths_of(pushed) =~= paths.push(path@));
                    assert forall|i: int, j: int|
                        0 <= i < paths.push(path@).len() && 0 <= j < paths.push(path@).len() && i
                            != j implies paths.push(path@)[i] != paths.push(path@)[j] by {
                        if i < paths.len() && j < paths.len() {
                            assert(paths[i] != paths[j]);
                        } else if i < paths.len() {
                            assert(paths.contains(paths[i]));
                        } else {
                            assert(paths.contains(paths[j]));
                        }
                    }
                }
                self.settle();
            },
            LoadEvent::Missing => {
                let including = if self.stack.len() == 0 {
                    None
                } else {
                    Some(self.stack[self.stack.len() - 1].path.clone())
                };
                self.failure = Some(LoadError::IncludeNotFound { path: path, including: including });
            },
            LoadEvent::Malformed(detail) => {
                self.failure = Some(LoadError::ManifestParseError { path: path, detail: detail });
            },
        }
    }

    /// The outcome of loading, once it has ended: the documents in
    /// inclusion order, or the failure. Nothing while a file is waited for.
    pub fn finish(self) -> (outcome: Option<Result<Vec<RawDocument>, LoadError>>)
        requires
            self.wf(),
        ensures
            match outcome {
                None => self@.pending is Some,
                Some(Ok(documents)) => self@.pending is None && self@.failure is None && views_of(
                    documents@,
                ) == self@.documents,
                Some(Err(failure)) => self@.pending is None && self@.failure == Some(failure@),
            },
    {
        if self.pending.is_some() {
            return None;
        }
        match self.failure {
            Some(failure) => Some(Err(failure)),
            None => Some(Ok(self.documents)),
        }
    }
}

/// The manifests of a list of documents, in their order.
pub fn manifests_of(documents: &Vec<RawDocument>) -> (manifests: Vec<Manifest>)
    ensures
        views_of(manifests@) == views_of(documents@).map_values(
            |document: RawDocumentView| document.manifest,
        ),
{
    let mut manifests: Vec<Manifest> = Vec::new();
    let mut i: usize = 0;
    while i < documents.len()
        invariant
            i <= documents.len(),
            manifests.len() == i,
            forall|j: int| 0 <= j < i ==> (#[trigger] manifests[j])@ == documents[j]@.manifest,
        decreases documents.len() - i,
    {
        manifests.push(documents[i].manifest.clone());
        i = i + 1;
    }
    proof {
        assert(views_of(manifests@) =~= views_of(documents@).map_values(
            |document: RawDocumentView| document.manifest,
        ));
    }
    manifests
}

} // verus!
