//! Inclusion order, said at once for a whole tree of files, and the proof
//! that the loader, fed from the same files, comes to the same end.

use crate::loader::paths_of;
use crate::loader::FrameView;
use crate::loader::LoadErrorView;
use crate::loader::LoadEventView;
use crate::loader::LoadView;
use crate::loader::RawDocumentView;
use crate::manifest::ManifestView;
use crate::project::nested_text;
use vstd::prelude::*;

verus! {

/// What reading and parsing each file comes to; a path without an entry
/// has no file.
pub type Files = Map<Seq<char>, LoadEventView>;

/// The outcome of loading: the documents in inclusion order, or why
/// loading failed.
pub type Loaded = Result<Seq<RawDocumentView>, LoadErrorView>;

/// What reading the file at `path` comes to.
pub open spec fn read(files: Files, path: Seq<char>) -> LoadEventView {
    if files.contains_key(path) {
        files[path]
    } else {
        LoadEventView::Missing
    }
}

/// The file that names the file being loaded: the last of the trail.
pub open spec fn namer(trail: Seq<Seq<char>>) -> Option<Seq<char>> {
    if trail.len() == 0 {
        None
    } else {
        Some(trail.last())
    }
}

/// The documents of the file at `path` and of the files it names, in
/// inclusion order. `trail` holds the files that are being loaded, from
/// the first file to the one that names this file. A file that is missing
/// or malformed ends loading. Else the documents of the files that it
/// names come first, and its own document last. Nothing is said where the
/// files nest deeper than `depth`.
pub open spec fn documents_of(
    files: Files,
    root: Seq<char>,
    path: Seq<char>,
    trail: Seq<Seq<char>>,
    depth: nat,
) -> Option<Loaded>
    decreases depth, 0nat, 0nat,
{
    if depth == 0 {
        None
    } else {
        match read(files, path) {
            LoadEventView::Missing => Some(
                Err(LoadErrorView::IncludeNotFound { path: path, including: namer(trail) }),
            ),
            LoadEventView::Malformed(detail) => Some(
                Err(LoadErrorView::ManifestParseError { path: path, detail: detail }),
            ),
            LoadEventView::Parsed(manifest) => match documents_of_named(
                files,
                root,
                manifest.includes,
                trail.push(path),
                (depth - 1) as nat,
            ) {
                Some(Ok(before)) => Some(
                    Ok(before.push(RawDocumentView { path: path, manifest: manifest })),
                ),
                other => other,
            },
        }
    }
}

/// The documents of the files that a file names, in the order in which it
/// names them. `trail` ends with the file that names them. A named file
/// is looked up in the root directory; where it is on the trail, loading
/// fails with the chain from that file to the end of the trail and back to
/// it.
pub open spec fn documents_of_named(
    files: Files,
    root: Seq<char>,
    names: Seq<Seq<char>>,
    trail: Seq<Seq<char>>,
    depth: nat,
) -> Option<Loaded>
    decreases depth, 1nat, names.len(),
{
    if names.len() == 0 {
        Some(Ok(Seq::empty()))
    } else {
        match documents_of_named(files, root, names.drop_last(), trail, depth) {
            Some(Ok(before)) => {
                let target = nested_text(root, names.last());
                if trail.contains(target) {
                    Some(
                        Err(
                            LoadErrorView::CyclicInclude {
                                chain: trail.subrange(
                                    trail.index_of(target),
                                    trail.len() as int,
                                ).push(target),
                            },
                        ),
                    )
                } else {
                    match documents_of(files, root, target, trail, depth) {
                        Some(Ok(more)) => Some(Ok(before + more)),
                        other => other,
                    }
                }
            },
            other => other,
        }
    }
}

/// The state of a loader after it was fed from `files` up to `steps`
/// times, or until it wants no file.
pub open spec fn ran(state: LoadView, files: Files, steps: nat) -> LoadView
    decreases steps,
{
    if steps == 0 || state.pending is None {
        state
    } else {
        ran(state.fed(read(files, state.pending->0)), files, (steps - 1) as nat)
    }
}

/// Feeding in two rounds is feeding in one.
pub proof fn lemma_ran_on(state: LoadView, files: Files, first: nat, second: nat)
    ensures
        ran(ran(state, files, first), files, second) == ran(state, files, first + second),
    decreases first,
{
    if first == 0 {
    } else if state.pending is None {
        lemma_ran_stays(state, files, second);
        lemma_ran_stays(state, files, first + second);
    } else {
        lemma_ran_on(
            state.fed(read(files, state.pending->0)),
            files,
            (first - 1) as nat,
            second,
        );
    }
}

/// A loader that wants no file stays as it is.
pub proof fn lemma_ran_stays(state: LoadView, files: Files, steps: nat)
    requires
        state.pending is None,
    ensures
        ran(state, files, steps) == state,
{
}

/// The state in which the file at `path` is on top of the stack of `base`
/// with `next` of its named files done, and `docs` have become complete
/// since `base`.
pub open spec fn within_file(
    base: LoadView,
    path: Seq<char>,
    manifest: ManifestView,
    next: nat,
    docs: Seq<RawDocumentView>,
) -> LoadView {
    LoadView {
        stack: base.stack.push(FrameView { path: path, manifest: manifest, next: next }),
        documents: base.documents + docs,
        pending: None,
        failure: None,
        ..base
    }
}

/// The state in which the file that `state` waits for has been loaded
/// with all that it names, and `docs` have become complete.
pub open spec fn resumed(state: LoadView, docs: Seq<RawDocumentView>) -> LoadView {
    LoadView { documents: state.documents + docs, pending: None, ..state }.settled()
}

/// Whether `end` is the loader's state for the outcome `loaded` of the
/// file that `state` waits for.
pub open spec fn ends_as(end: LoadView, state: LoadView, loaded: Loaded) -> bool {
    match loaded {
        Ok(docs) => end == resumed(state, docs),
        Err(failure) => end.pending is None && end.failure == Some(failure),
    }
}

/// Whether `end` is the loader's state for the outcome `loaded` of the
/// first `next` files that the file on top of the stack names.
pub open spec fn ends_within(
    end: LoadView,
    base: LoadView,
    path: Seq<char>,
    manifest: ManifestView,
    next: nat,
    loaded: Loaded,
) -> bool {
    match loaded {
        Ok(docs) => end == within_file(base, path, manifest, next, docs).settled(),
        Err(failure) => end.pending is None && end.failure == Some(failure),
    }
}

/// The loader, fed from the files, loads the first `next` files that a
/// file names as `documents_of_named` says.
pub proof fn lemma_named_files_load(
    files: Files,
    base: LoadView,
    path: Seq<char>,
    manifest: ManifestView,
    next: nat,
    depth: nat,
) -> (steps: nat)
    requires
        next <= manifest.includes.len(),
        documents_of_named(
            files,
            base.root,
            manifest.includes.take(next as int),
            paths_of(base.stack).push(path),
            depth,
        ) is Some,
    ensures
        ends_within(
            ran(within_file(base, path, manifest, 0, Seq::empty()).settled(), files, steps),
            base,
            path,
            manifest,
            next,
            documents_of_named(
                files,
                base.root,
                manifest.includes.take(next as int),
                paths_of(base.stack).push(path),
                depth,
            )->0,
        ),
    decreases depth, 1nat, next,
{
    let first = within_file(base, path, manifest, 0, Seq::empty()).settled();
    let trail = paths_of(base.stack).push(path);
    let names = manifest.includes.take(next as int);
    if next == 0 {
        assert(names.len() == 0);
        return 0;
    }
    let done = (next - 1) as nat;
    assert(names.drop_last() =~= manifest.includes.take(done as int));
    assert(names.last() == manifest.includes[done as int]);
    let earlier = documents_of_named(files, base.root, names.drop_last(), trail, depth);
    assert(earlier is Some);
    let steps_before = lemma_named_files_load(files, base, path, manifest, done, depth);
    let reached = ran(first, files, steps_before);
    match earlier->0 {
        Err(failure) => {
            return steps_before;
        },
        Ok(before) => {
            let here = within_file(base, path, manifest, done, before);
            assert(reached == here.settled());
            let top = here.stack.last();
            assert(top == FrameView { path: path, manifest: manifest, next: done });
            let target = nested_text(base.root, manifest.includes[done as int]);
            assert(paths_of(here.stack) =~= trail);
            if trail.contains(target) {
                return steps_before;
            }
            let waiting = LoadView {
                stack: here.stack.update(here.stack.len() - 1, FrameView { next: done + 1, ..top }),
                pending: Some(target),
                ..here
            };
            assert(here.settled() == waiting);
            assert(waiting.stack =~= base.stack.push(
                FrameView { path: path, manifest: manifest, next: next },
            ));
            assert(paths_of(waiting.stack) =~= trail);
            let steps_file = lemma_file_loads(files, waiting, depth);
            lemma_ran_on(first, files, steps_before, steps_file);
            let loaded = documents_of(files, base.root, target, trail, depth)->0;
            match loaded {
                Ok(more) => {
                    let after = LoadView {
                        documents: waiting.documents + more,
                        pending: None,
                        ..waiting
                    };
                    assert(after.documents =~= base.documents + (before + more));
                    assert(after == within_file(base, path, manifest, next, before + more));
                },
                Err(_) => {},
            }
            return steps_before + steps_file;
        },
    }
}

/// The loader, fed from the files, loads the file that it waits for as
/// `documents_of` says.
pub proof fn lemma_file_loads(files: Files, state: LoadView, depth: nat) -> (steps: nat)
    requires
        state.pending is Some,
        state.failure is None,
        documents_of(files, state.root, state.pending->0, paths_of(state.stack), depth) is Some,
    ensures
        ends_as(
            ran(state, files, steps),
            state,
            documents_of(files, state.root, state.pending->0, paths_of(state.stack), depth)->0,
        ),
    decreases depth, 0nat, 0nat,
{
    let path = state.pending->0;
    let trail = paths_of(state.stack);
    let event = read(files, path);
    let fed = state.fed(event);
    assert(ran(state, files, 1) == ran(fed, files, 0));
    match event {
        LoadEventView::Missing => {
            if state.stack.len() > 0 {
                assert(trail.last() == state.stack.last().path);
            }
            return 1;
        },
        LoadEventView::Malformed(_) => {
            return 1;
        },
        LoadEventView::Parsed(manifest) => {
            let base = LoadView { pending: None, ..state };
            let first = within_file(base, path, manifest, 0, Seq::empty());
            assert(first.documents =~= state.documents);
            assert(fed == first.settled());
            let all = manifest.includes.len();
            assert(manifest.includes.take(all as int) =~= manifest.includes);
            let steps_named = lemma_named_files_load(
                files,
                base,
                path,
                manifest,
                all,
                (depth - 1) as nat,
            );
            let named = documents_of_named(
                files,
                state.root,
                manifest.includes,
                trail.push(path),
                (depth - 1) as nat,
            )->0;
            lemma_ran_on(state, files, 1, steps_named);
            match named {
                Ok(before) => {
                    let full = within_file(base, path, manifest, all, before);
                    let own = RawDocumentView { path: path, manifest: manifest };
                    let popped = LoadView {
                        stack: full.stack.drop_last(),
                        documents: full.documents.push(own),
                        ..full
                    };
                    assert(full.settled() == popped.settled());
                    assert(popped.stack =~= state.stack);
                    assert(popped.documents =~= state.documents + before.push(own));
                    assert(popped == LoadView {
                        documents: state.documents + before.push(own),
                        pending: None,
                        ..state
                    });
                },
                Err(_) => {},
            }
            return 1 + steps_named;
        },
    }
}

/// Inclusion order: wherever `documents_of` says how loading the manifest
/// `name` of the directory `root` ends, a loader that is started on it and
/// fed from the same files wants no further file after some number of
/// steps, and has ended in the same way: with the same documents in the
/// same order, or with the same failure.
pub proof fn law_loader_follows_inclusion_order(
    files: Files,
    root: Seq<char>,
    name: Seq<char>,
    depth: nat,
) -> (steps: nat)
    requires
        documents_of(files, root, nested_text(root, name), Seq::empty(), depth) is Some,
    ensures
        ({
            let end = ran(LoadView::start(root, name), files, steps);
            &&& end.pending is None
            &&& match documents_of(files, root, nested_text(root, name), Seq::empty(), depth)->0 {
                Ok(docs) => end.failure is None && end.documents == docs,
                Err(failure) => end.failure == Some(failure),
            }
        }),
{
    let start = LoadView::start(root, name);
    assert(paths_of(start.stack) =~= Seq::<Seq<char>>::empty());
    let steps = lemma_file_loads(files, start, depth);
    match documents_of(files, root, nested_text(root, name), Seq::empty(), depth)->0 {
        Ok(docs) => {
            assert(start.documents + docs =~= docs);
        },
        Err(_) => {},
    }
    steps
}

/// A manifest that names no file is loaded as one document: its own.
pub proof fn law_file_that_names_nothing(
    root: Seq<char>,
    name: Seq<char>,
    manifest: ManifestView,
)
    requires
        manifest.includes.len() == 0,
    ensures
        ({
            let end = LoadView::start(root, name).fed(LoadEventView::Parsed(manifest));
            &&& end.pending is None
            &&& end.failure is None
            &&& end.documents == seq![
                RawDocumentView { path: nested_text(root, name), manifest: manifest },
            ]
        }),
{
    let start = LoadView::start(root, name);
    let path = nested_text(root, name);
    let pushed = LoadView {
        stack: start.stack.push(FrameView { path: path, manifest: manifest, next: 0 }),
        pending: None,
        ..start
    };
    let popped = LoadView {
        stack: pushed.stack.drop_last(),
        documents: pushed.documents.push(RawDocumentView { path: path, manifest: manifest }),
        ..pushed
    };
    assert(pushed.settled() == popped.settled());
    assert(popped.stack =~= Seq::<FrameView>::empty());
    assert(popped.documents =~= seq![RawDocumentView { path: path, manifest: manifest }]);
}

} // verus!
