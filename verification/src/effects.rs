//! What carrying out an extraction does to a file tree, as a model.

use vstd::prelude::*;
use crate::archive::{is_plan_of, step_of, target_path, EntryView, ExtractError, StepView};

verus! {

/// A file tree: the content of each file by its path, and the directories
/// that were made by name.
pub struct FileTree {
    pub files: Map<Seq<char>, Seq<u8>>,
    pub dirs: Set<Seq<char>>,
}

/// The tree after one step: a write puts the content at the path, replacing
/// what was there; making a directory adds it.
pub open spec fn apply_step(tree: FileTree, step: StepView) -> FileTree {
    match step {
        StepView::MakeDir { path } => FileTree { files: tree.files, dirs: tree.dirs.insert(path) },
        StepView::WriteFile { path, content } => FileTree {
            files: tree.files.insert(path, content),
            dirs: tree.dirs,
        },
    }
}

/// The tree after the steps, carried out in order.
pub open spec fn apply_steps(tree: FileTree, steps: Seq<StepView>) -> FileTree
    decreases steps.len(),
{
    if steps.len() == 0 {
        tree
    } else {
        apply_step(apply_steps(tree, steps.drop_last()), steps.last())
    }
}

/// What the last write to `path` among the steps puts there, if any does.
pub open spec fn last_write(steps: Seq<StepView>, path: Seq<char>) -> Option<Seq<u8>>
    decreases steps.len(),
{
    if steps.len() == 0 {
        None
    } else {
        match steps.last() {
            StepView::WriteFile { path: written, content } if written == path => Some(content),
            _ => last_write(steps.drop_last(), path),
        }
    }
}

/// Whether one of the steps makes the directory `path`.
pub open spec fn makes_dir(steps: Seq<StepView>, path: Seq<char>) -> bool
    decreases steps.len(),
{
    if steps.len() == 0 {
        false
    } else {
        steps.last() == (StepView::MakeDir { path }) || makes_dir(steps.drop_last(), path)
    }
}

/// After the steps, a path holds what the last write to it put there, or
/// what it held before where no step writes it; it is a directory where it
/// was one before or a step makes it.
pub proof fn lemma_apply_steps(tree: FileTree, steps: Seq<StepView>, p: Seq<char>)
    ensures
        apply_steps(tree, steps).files.dom().contains(p) <==> tree.files.dom().contains(p)
            || last_write(steps, p) is Some,
        last_write(steps, p) is Some ==> apply_steps(tree, steps).files[p] == last_write(
            steps,
            p,
        )->Some_0,
        last_write(steps, p) is None ==> apply_steps(tree, steps).files[p] == tree.files[p],
        apply_steps(tree, steps).dirs.contains(p) <==> tree.dirs.contains(p) || makes_dir(
            steps,
            p,
        ),
    decreases steps.len(),
{
    if steps.len() > 0 {
        lemma_apply_steps(tree, steps.drop_last(), p);
    }
}

/// Carrying out the same steps a second time leaves the tree as the first
/// run left it.
pub proof fn lemma_extraction_idempotent(tree: FileTree, steps: Seq<StepView>)
    ensures
        apply_steps(apply_steps(tree, steps), steps) == apply_steps(tree, steps),
{
    let once = apply_steps(tree, steps);
    let twice = apply_steps(once, steps);
    assert forall|p: Seq<char>| #![trigger twice.files.dom().contains(p)]
        twice.files.dom().contains(p) == once.files.dom().contains(p) by {
        lemma_apply_steps(tree, steps, p);
        lemma_apply_steps(once, steps, p);
    }
    assert forall|p: Seq<char>| #![trigger twice.files[p]]
        twice.files.dom().contains(p) implies twice.files[p] == once.files[p] by {
        lemma_apply_steps(tree, steps, p);
        lemma_apply_steps(once, steps, p);
    }
    assert forall|p: Seq<char>| #![trigger twice.dirs.contains(p)]
        twice.dirs.contains(p) == once.dirs.contains(p) by {
        lemma_apply_steps(tree, steps, p);
        lemma_apply_steps(once, steps, p);
    }
    assert(twice.files =~= once.files);
    assert(twice.dirs =~= once.dirs);
}

/// A write that no later step overwrites is the last write to its path.
pub proof fn lemma_last_write_wins(
    steps: Seq<StepView>,
    i: int,
    path: Seq<char>,
    content: Seq<u8>,
)
    requires
        0 <= i < steps.len(),
        steps[i] == (StepView::WriteFile { path, content }),
        forall|j: int|
            i < j < steps.len() ==> !(#[trigger] steps[j] matches StepView::WriteFile {
                path: written,
                ..
            } && written == path),
    ensures
        last_write(steps, path) == Some(content),
    decreases steps.len(),
{
    if i < steps.len() - 1 {
        let rest = steps.drop_last();
        assert(rest[i] == steps[i]);
        assert forall|j: int| i < j < rest.len() implies !(#[trigger] rest[j] matches StepView::WriteFile {
            path: written,
            ..
        } && written == path) by {
            assert(rest[j] == steps[j]);
        }
        lemma_last_write_wins(rest, i, path, content);
    }
}

/// What the steps write somewhere, one of them writes there.
pub proof fn lemma_last_write_is_a_step(steps: Seq<StepView>, path: Seq<char>)
    requires
        last_write(steps, path) is Some,
    ensures
        exists|i: int|
            0 <= i < steps.len() && #[trigger] steps[i] == (StepView::WriteFile {
                path,
                content: last_write(steps, path)->Some_0,
            }),
    decreases steps.len(),
{
    match steps.last() {
        StepView::WriteFile { path: written, content } if written == path => {
            assert(steps[steps.len() - 1] == (StepView::WriteFile { path, content }));
        },
        _ => {
            let rest = steps.drop_last();
            lemma_last_write_is_a_step(rest, path);
            let i = choose|i: int|
                0 <= i < rest.len() && #[trigger] rest[i] == (StepView::WriteFile {
                    path,
                    content: last_write(rest, path)->Some_0,
                });
            assert(steps[i] == rest[i]);
        },
    }
}

/// Entries with different names go to different paths.
pub proof fn lemma_target_path_injective(destination: Seq<char>, a: Seq<char>, b: Seq<char>)
    requires
        target_path(destination, a) == target_path(destination, b),
    ensures
        a == b,
{
    let start = destination.len() + 1;
    let pa = target_path(destination, a);
    let pb = target_path(destination, b);
    assert(pa.subrange(start as int, pa.len() as int) =~= a);
    assert(pb.subrange(start as int, pb.len() as int) =~= b);
}

/// Extraction is faithful: once a plan's steps are carried out, the file of
/// an entry that was reached, and whose name no later entry that was reached
/// has, stands under the destination with the entry's bytes, whatever the
/// tree held before.
pub proof fn lemma_extraction_is_faithful(
    tree: FileTree,
    steps: Seq<StepView>,
    failure: Option<ExtractError>,
    entries: Seq<Option<EntryView>>,
    destination: Seq<char>,
    i: int,
)
    requires
        is_plan_of(steps, failure, entries, destination),
        0 <= i < steps.len(),
        entries[i] is Some,
        !entries[i]->Some_0.1,
        forall|j: int|
            i < j < steps.len() ==> (#[trigger] entries[j])->Some_0.0 != entries[i]->Some_0.0,
    ensures
        apply_steps(tree, steps).files.dom().contains(
            target_path(destination, entries[i]->Some_0.0),
        ),
        apply_steps(tree, steps).files[target_path(destination, entries[i]->Some_0.0)]
            == entries[i]->Some_0.2,
{
    let name = entries[i]->Some_0.0;
    let content = entries[i]->Some_0.2;
    let path = target_path(destination, name);
    assert(step_of(entries[i], destination) == Ok::<StepView, ExtractError>(steps[i]));
    assert(steps[i] == (StepView::WriteFile { path, content }));
    assert forall|j: int| i < j < steps.len() implies !(#[trigger] steps[j] matches StepView::WriteFile {
        path: written,
        ..
    } && written == path) by {
        assert(step_of(entries[j], destination) == Ok::<StepView, ExtractError>(steps[j]));
        if steps[j] matches StepView::WriteFile { path: written, .. } && written == path {
            lemma_target_path_injective(destination, entries[j]->Some_0.0, name);
        }
    }
    lemma_last_write_wins(steps, i, path, content);
    lemma_apply_steps(tree, steps, path);
}

/// Extraction writes nothing else: a file that stands in the tree after the
/// steps stood there before, or one of the steps writes it with that content.
pub proof fn lemma_only_planned_files(tree: FileTree, steps: Seq<StepView>, path: Seq<char>)
    requires
        apply_steps(tree, steps).files.dom().contains(path),
        !tree.files.dom().contains(path),
    ensures
        exists|i: int|
            0 <= i < steps.len() && #[trigger] steps[i] == (StepView::WriteFile {
                path,
                content: apply_steps(tree, steps).files[path],
            }),
{
    lemma_apply_steps(tree, steps, path);
    lemma_last_write_is_a_step(steps, path);
}

} // verus!
