//! Laying out an archive's entries under a destination directory.
//!
//! The archive is decoded here; the writes are left to the caller, who gets
//! them as an ordered list of steps.

use vstd::prelude::*;
use crate::text::join;

verus! {

/// Why an extraction stopped.
#[derive(Debug, Clone, Copy, PartialEq, Eq, Structural)]
pub enum ExtractError {
    /// The archive, or one of its entries, cannot be decoded.
    Corrupt,
    /// A step could not be carried out on disk.
    Io,
    /// An entry's path leads out of the destination directory.
    UnsafePath,
}

/// One entry of an archive.
#[derive(Debug, Clone, PartialEq, Eq)]
pub struct ArchiveEntry {
    pub relative_path: String,
    pub is_dir: bool,
    pub content: Vec<u8>,
}

/// An entry as plain values: its path, whether it is a directory, its bytes.
pub type EntryView = (Seq<char>, bool, Seq<u8>);

impl View for ArchiveEntry {
    type V = EntryView;

    open spec fn view(&self) -> EntryView {
        (self.relative_path@, self.is_dir, self.content@)
    }
}

/// One write to carry out.
#[derive(Debug, Clone, PartialEq, Eq)]
pub enum Step {
    /// Create the directory `path`, and nothing in it.
    MakeDir { path: String },
    /// Create the file `path`, with the directories above it, holding `content`.
    WriteFile { path: String, content: Vec<u8> },
}

/// The mathematical content of a `Step`.
pub enum StepView {
    MakeDir { path: Seq<char> },
    WriteFile { path: Seq<char>, content: Seq<u8> },
}

impl View for Step {
    type V = StepView;

    open spec fn view(&self) -> StepView {
        match self {
            Step::MakeDir { path } => StepView::MakeDir { path: path@ },
            Step::WriteFile { path, content } => StepView::WriteFile {
                path: path@,
                content: content@,
            },
        }
    }
}

/// The writes of an extraction, in the archive's order, and why it stops
/// after them, if it does.
#[derive(Debug, Clone, PartialEq, Eq)]
pub struct Extraction {
    pub steps: Vec<Step>,
    pub failure: Option<ExtractError>,
}

/// The views of a list of steps.
pub open spec fn steps_view(steps: Seq<Step>) -> Seq<StepView> {
    Seq::new(steps.len(), |i: int| steps[i]@)
}

/// Whether a character parts the components of a path.
pub open spec fn is_separator(c: char) -> bool {
    c == '/' || c == '\\'
}

/// The components of a path: what stands between its separators.
pub open spec fn components(path: Seq<char>) -> Seq<Seq<char>>
    decreases path.len(),
{
    if path.len() == 0 {
        seq![Seq::empty()]
    } else {
        let before = components(path.drop_last());
        if is_separator(path.last()) {
            before.push(Seq::empty())
        } else {
            before.drop_last().push(before.last().push(path.last()))
        }
    }
}

/// How a component moves a walk down the tree: `..` climbs, an empty one and
/// `.` stay, any other descends.
pub open spec fn level_change(component: Seq<char>) -> int {
    if component == seq!['.', '.'] {
        -1
    } else if component.len() == 0 || component == seq!['.'] {
        0
    } else {
        1
    }
}

/// The level below the starting directory after walking `parts`.
pub open spec fn level_after(parts: Seq<Seq<char>>) -> int
    decreases parts.len(),
{
    if parts.len() == 0 {
        0
    } else {
        level_after(parts.drop_last()) + level_change(parts.last())
    }
}

/// Whether a path leaves the directory it is taken from: it is absolute, or
/// somewhere along it the walk stands above the start.
pub open spec fn escapes(path: Seq<char>) -> bool {
    (path.len() > 0 && is_separator(path[0])) || exists|k: int|
        0 <= k <= components(path).len() && #[trigger] level_after(components(path).take(k)) < 0
}

/// The views of a list of components.
pub open spec fn parts_view(parts: Seq<Vec<char>>) -> Seq<Seq<char>> {
    Seq::new(parts.len(), |i: int| parts[i]@)
}

/// Splits a path at its separators.
pub fn split_path(path: &str) -> (r: Vec<Vec<char>>)
    ensures
        parts_view(r@) == components(path@),
{
    let n: usize = path.unicode_len();
    let mut parts: Vec<Vec<char>> = Vec::new();
    let mut current: Vec<char> = Vec::new();
    let mut i: usize = 0;
    assert(parts_view(parts@).push(current@) =~= components(path@.take(0)));
    while i < n
        invariant
            i <= n,
            n == path@.len(),
            parts_view(parts@).push(current@) == components(path@.take(i as int)),
        decreases n - i,
    {
        let c = path.get_char(i);
        let ghost before = parts_view(parts@).push(current@);
        proof {
            let pre = path@.take(i as int + 1);
            assert(pre.drop_last() =~= path@.take(i as int));
            assert(pre.last() == c);
            assert(before.drop_last() =~= parts_view(parts@));
            assert(before.last() == current@);
        }
        if c == '/' || c == '\\' {
            parts.push(current);
            current = Vec::new();
            assert(parts_view(parts@) =~= before);
        } else {
            current.push(c);
        }
        i += 1;
    }
    assert(path@.take(n as int) =~= path@);
    let ghost done = parts_view(parts@).push(current@);
    parts.push(current);
    assert(parts_view(parts@) =~= done);
    parts
}

/// Tells whether a path leaves the directory it is taken from.
pub fn escapes_root(path: &str) -> (r: bool)
    ensures
        r == escapes(path@),
{
    let n: usize = path.unicode_len();
    if n > 0 {
        let c = path.get_char(0);
        if c == '/' || c == '\\' {
            return true;
        }
    }
    let parts = split_path(path);
    let ghost pv = components(path@);
    let mut level: usize = 0;
    let mut k: usize = 0;
    assert(pv.take(0) =~= Seq::empty());
    while k < parts.len()
        invariant
            k <= parts.len(),
            pv == parts_view(parts@),
            pv == components(path@),
            level as int == level_after(pv.take(k as int)),
            level <= k,
            forall|j: int| 0 <= j <= k ==> #[trigger] level_after(pv.take(j)) >= 0,
        decreases parts.len() - k,
    {
        let part = &parts[k];
        proof {
            assert(pv.take(k as int + 1).drop_last() =~= pv.take(k as int));
            assert(pv.take(k as int + 1).last() == part@);
        }
        if part.len() == 2 && part[0] == '.' && part[1] == '.' {
            assert(part@ =~= seq!['.', '.']);
            if level == 0 {
                assert(level_after(pv.take(k as int + 1)) < 0);
                return true;
            }
            level -= 1;
        } else if part.len() == 0 || (part.len() == 1 && part[0] == '.') {
            assert(part@.len() == 0 || part@ =~= seq!['.']);
            assert(part@ != seq!['.', '.']) by {
                assert(seq!['.', '.'].len() == 2);
            }
        } else {
            assert(part@ != seq!['.', '.']) by {
                if part@ == seq!['.', '.'] {
                    assert(part@.len() == 2 && part@[0] == '.' && part@[1] == '.');
                }
            }
            assert(part@ != seq!['.']) by {
                if part@ == seq!['.'] {
                    assert(part@.len() == 1 && part@[0] == '.');
                }
            }
            level += 1;
        }
        k += 1;
    }
    false
}

/// Where an entry named `name` goes under `destination`.
pub open spec fn target_path(destination: Seq<char>, name: Seq<char>) -> Seq<char> {
    destination + seq!['/'] + name
}

/// The step that an entry asks for, or why there is none: an entry that
/// cannot be decoded is `Corrupt`, one whose path escapes is `UnsafePath`.
pub open spec fn step_of(entry: Option<EntryView>, destination: Seq<char>) -> Result<
    StepView,
    ExtractError,
> {
    match entry {
        None => Err(ExtractError::Corrupt),
        Some((name, is_dir, content)) => if escapes(name) {
            Err(ExtractError::UnsafePath)
        } else if is_dir {
            Ok(StepView::MakeDir { path: target_path(destination, name) })
        } else {
            Ok(StepView::WriteFile { path: target_path(destination, name), content })
        },
    }
}

/// Whether an executable result is the one that `expected` describes.
pub open spec fn step_result_is(
    r: Result<Step, ExtractError>,
    expected: Result<StepView, ExtractError>,
) -> bool {
    match r {
        Ok(step) => expected == Ok::<StepView, ExtractError>(step@),
        Err(e) => expected == Err::<StepView, ExtractError>(e),
    }
}

/// Decides what to write for one entry under `destination`.
pub fn step_for(entry: &ArchiveEntry, destination: &str) -> (r: Result<Step, ExtractError>)
    ensures
        step_result_is(r, step_of(Some(entry@), destination@)),
{
    if escapes_root(entry.relative_path.as_str()) {
        return Err(ExtractError::UnsafePath);
    }
    let base = join(destination, "/");
    let path = join(base.as_str(), entry.relative_path.as_str());
    proof {
        reveal_strlit("/");
        assert("/"@ =~= seq!['/']);
    }
    if entry.is_dir {
        Ok(Step::MakeDir { path })
    } else {
        let content = entry.content.clone();
        assert(content@ =~= entry.content@);
        Ok(Step::WriteFile { path, content })
    }
}

/// `std::io::Cursor`, the in-memory reader that the archive is decoded from.
#[verifier::external_type_specification]
#[verifier::external_body]
#[verifier::reject_recursive_types(T)]
pub struct ExCursor<T>(std::io::Cursor<T>);

/// `zip::ZipArchive`, an opened archive.
#[verifier::external_type_specification]
#[verifier::external_body]
#[verifier::reject_recursive_types(R)]
pub struct ExZipArchive<R>(zip::ZipArchive<R>);

/// What decoding the bytes of an archive gives: `None` where its central
/// directory cannot be read, else its entries in the directory's order, each
/// `None` where that entry cannot be decoded.
pub uninterp spec fn archive_listing(bytes: Seq<u8>) -> Option<Seq<Option<EntryView>>>;

/// The entries that an opened archive holds, in its central directory's
/// order, each `None` where it cannot be decoded.
pub uninterp spec fn archive_entries(
    archive: zip::ZipArchive<std::io::Cursor<Vec<u8>>>,
) -> Seq<Option<EntryView>>;

/// Calls `zip::ZipArchive::new` on a cursor over `bytes`. Trusted: it fails
/// exactly where the listing of the bytes is `None`, and the archive that it
/// returns holds that listing.
#[verifier::external_body]
fn open_archive(bytes: Vec<u8>) -> (r: Option<zip::ZipArchive<std::io::Cursor<Vec<u8>>>>)
    ensures
        match r {
            Some(archive) => archive_listing(bytes@) == Some(archive_entries(archive)),
            None => archive_listing(bytes@).is_none(),
        },
{
    zip::ZipArchive::new(std::io::Cursor::new(bytes)).ok()
}

/// Calls `zip::ZipArchive::len`. Trusted: it is the number of entries held.
#[verifier::external_body]
fn archive_len(archive: &zip::ZipArchive<std::io::Cursor<Vec<u8>>>) -> (r: usize)
    ensures
        r == archive_entries(*archive).len(),
{
    archive.len()
}

/// Calls `zip::ZipArchive::by_index`, then `name`, `is_dir` and
/// `Read::read_to_end` on the file that it returns. Trusted: the archive holds
/// the same entries afterwards, and the result is its entry at `index`,
/// `None` where any of the calls fails.
#[verifier::external_body]
fn read_entry(archive: &mut zip::ZipArchive<std::io::Cursor<Vec<u8>>>, index: usize) -> (r: Option<
    ArchiveEntry,
>)
    requires
        index < archive_entries(*old(archive)).len(),
    ensures
        archive_entries(*final(archive)) == archive_entries(*old(archive)),
        entry_view(r) == archive_entries(*old(archive))[index as int],
{
    let mut file = archive.by_index(index).ok()?;
    let relative_path = file.name().ok()?.into_owned();
    let is_dir = file.is_dir();
    let mut content = Vec::new();
    std::io::Read::read_to_end(&mut file, &mut content).ok()?;
    Some(ArchiveEntry { relative_path, is_dir, content })
}

/// An entry as plain values, if there is one.
pub open spec fn entry_view(entry: Option<ArchiveEntry>) -> Option<EntryView> {
    match entry {
        Some(e) => Some(e@),
        None => None,
    }
}

/// Whether `steps` and `failure` are the extraction of `entries` under
/// `destination`: one step per entry, in order, up to the first entry that
/// has none, whose error is the failure; no failure where every entry has one.
pub open spec fn is_plan_of(
    steps: Seq<StepView>,
    failure: Option<ExtractError>,
    entries: Seq<Option<EntryView>>,
    destination: Seq<char>,
) -> bool {
    &&& steps.len() <= entries.len()
    &&& forall|i: int|
        0 <= i < steps.len() ==> #[trigger] step_of(entries[i], destination) == Ok::<
            StepView,
            ExtractError,
        >(steps[i])
    &&& if steps.len() < entries.len() {
        step_of(entries[steps.len() as int], destination) is Err && failure == Some(
            step_of(entries[steps.len() as int], destination)->Err_0,
        )
    } else {
        failure.is_none()
    }
}

/// The entries of a list as plain values.
pub open spec fn entries_view(entries: Seq<Option<ArchiveEntry>>) -> Seq<Option<EntryView>> {
    Seq::new(entries.len(), |i: int| entry_view(entries[i]))
}

/// A decoded archive as plain values.
pub open spec fn listing_view(listing: Option<Vec<Option<ArchiveEntry>>>) -> Option<
    Seq<Option<EntryView>>,
> {
    match listing {
        Some(entries) => Some(entries_view(entries@)),
        None => None,
    }
}

/// Whether an extraction is the one that the listing of an archive asks for
/// under `destination`: nothing but `Corrupt` where the archive cannot be
/// read, else the plan of its entries.
pub open spec fn is_extraction_of(
    plan: Extraction,
    listing: Option<Seq<Option<EntryView>>>,
    destination: Seq<char>,
) -> bool {
    match listing {
        None => plan.steps@.len() == 0 && plan.failure == Some(ExtractError::Corrupt),
        Some(entries) => is_plan_of(steps_view(plan.steps@), plan.failure, entries, destination),
    }
}

/// Decodes an archive from its bytes: its entries in the order of its
/// central directory, each `None` where it cannot be decoded; `None` where
/// the archive itself cannot be read.
pub fn read_entries(archive_bytes: Vec<u8>) -> (r: Option<Vec<Option<ArchiveEntry>>>)
    ensures
        listing_view(r) == archive_listing(archive_bytes@),
{
    let mut archive = match open_archive(archive_bytes) {
        Some(archive) => archive,
        None => {
            return None;
        },
    };
    let ghost held = archive_entries(archive);
    let count: usize = archive_len(&archive);
    let mut entries: Vec<Option<ArchiveEntry>> = Vec::new();
    let mut i: usize = 0;
    while i < count
        invariant
            i <= count,
            count == held.len(),
            archive_entries(archive) == held,
            entries.len() == i,
            forall|j: int| 0 <= j < i ==> entry_view(#[trigger] entries[j]) == held[j],
        decreases count - i,
    {
        let entry = read_entry(&mut archive, i);
        entries.push(entry);
        i += 1;
    }
    assert(entries_view(entries@) =~= held);
    Some(entries)
}

/// Lays decoded entries out under `destination`: one step per entry, in
/// order, up to the first entry that is not decoded or whose path leaves
/// the destination.
pub fn plan_entries(entries: &Vec<Option<ArchiveEntry>>, destination: &str) -> (r: Extraction)
    ensures
        is_plan_of(steps_view(r.steps@), r.failure, entries_view(entries@), destination@),
{
    let ghost views = entries_view(entries@);
    let mut steps: Vec<Step> = Vec::new();
    let mut i: usize = 0;
    while i < entries.len()
        invariant
            i <= entries.len(),
            views == entries_view(entries@),
            steps.len() == i,
            forall|j: int|
                0 <= j < i ==> #[trigger] step_of(views[j], destination@) == Ok::<
                    StepView,
                    ExtractError,
                >(steps[j]@),
        decreases entries.len() - i,
    {
        let outcome = match &entries[i] {
            Some(entry) => step_for(entry, destination),
            None => Err(ExtractError::Corrupt),
        };
        assert(views[i as int] == entry_view(entries[i as int]));
        assert(step_result_is(outcome, step_of(views[i as int], destination@)));
        match outcome {
            Ok(step) => {
                steps.push(step);
            },
            Err(e) => {
                assert(steps_view(steps@).len() == i);
                assert forall|j: int| 0 <= j < i implies #[trigger] step_of(
                    views[j],
                    destination@,
                ) == Ok::<StepView, ExtractError>(steps_view(steps@)[j]) by {}
                return Extraction { steps, failure: Some(e) };
            },
        }
        i += 1;
    }
    assert(steps_view(steps@).len() == entries.len());
    assert forall|j: int| 0 <= j < entries.len() implies #[trigger] step_of(views[j], destination@)
        == Ok::<StepView, ExtractError>(steps_view(steps@)[j]) by {}
    Extraction { steps, failure: None }
}

/// Decodes an archive from its bytes and lays its entries out under
/// `destination`: the writes to carry out, in the archive's order, up to the
/// first entry that cannot be decoded or whose path leaves the destination.
pub fn plan_extraction(archive_bytes: Vec<u8>, destination: &str) -> (r: Extraction)
    ensures
        is_extraction_of(r, archive_listing(archive_bytes@), destination@),
{
    match read_entries(archive_bytes) {
        Some(entries) => plan_entries(&entries, destination),
        None => Extraction { steps: Vec::new(), failure: Some(ExtractError::Corrupt) },
    }
}

impl Extraction {
    /// How the extraction ends once the caller has carried out its steps:
    /// `Io` where the write of step `failed_step` failed, else the plan's own
    /// failure, else success.
    pub fn outcome(&self, failed_step: Option<usize>) -> (r: Result<(), ExtractError>)
        ensures
            r == (match failed_step {
                Some(i) if i < self.steps@.len() => Err::<(), ExtractError>(ExtractError::Io),
                _ => match self.failure {
                    Some(e) => Err::<(), ExtractError>(e),
                    None => Ok::<(), ExtractError>(()),
                },
            }),
    {
        match failed_step {
            Some(i) if i < self.steps.len() => Err(ExtractError::Io),
            _ => match self.failure {
                Some(e) => Err(e),
                None => Ok(()),
            },
        }
    }
}

/// The entries and the destination fix the plan: two plans of the same
/// entries under the same destination have the same steps and the same
/// failure.
pub proof fn lemma_plan_is_unique(
    steps: Seq<StepView>,
    failure: Option<ExtractError>,
    other_steps: Seq<StepView>,
    other_failure: Option<ExtractError>,
    entries: Seq<Option<EntryView>>,
    destination: Seq<char>,
)
    requires
        is_plan_of(steps, failure, entries, destination),
        is_plan_of(other_steps, other_failure, entries, destination),
    ensures
        steps == other_steps,
        failure == other_failure,
{
    if steps.len() < other_steps.len() {
        assert(step_of(entries[steps.len() as int], destination) is Ok);
    }
    if other_steps.len() < steps.len() {
        assert(step_of(entries[other_steps.len() as int], destination) is Ok);
    }
    assert forall|i: int| 0 <= i < steps.len() implies steps[i] == other_steps[i] by {
        assert(step_of(entries[i], destination) == Ok::<StepView, ExtractError>(steps[i]));
        assert(step_of(entries[i], destination) == Ok::<StepView, ExtractError>(other_steps[i]));
    }
    assert(steps =~= other_steps);
}

/// Every step of a plan writes below the destination: its path is the
/// destination, a separator, and an entry's path that does not escape.
pub proof fn lemma_steps_stay_inside(
    steps: Seq<StepView>,
    failure: Option<ExtractError>,
    entries: Seq<Option<EntryView>>,
    destination: Seq<char>,
)
    requires
        is_plan_of(steps, failure, entries, destination),
    ensures
        forall|i: int|
            0 <= i < steps.len() ==> (#[trigger] entries[i]) is Some && !escapes(
                entries[i]->Some_0.0,
            ) && step_path(steps[i]) == target_path(destination, entries[i]->Some_0.0),
        failure == Some(ExtractError::UnsafePath) ==> steps.len() < entries.len()
            && entries[steps.len() as int] is Some && escapes(
            entries[steps.len() as int]->Some_0.0,
        ),
{
    assert forall|i: int| 0 <= i < steps.len() implies (#[trigger] entries[i]) is Some && !escapes(
        entries[i]->Some_0.0,
    ) && step_path(steps[i]) == target_path(destination, entries[i]->Some_0.0) by {
        assert(step_of(entries[i], destination) == Ok::<StepView, ExtractError>(steps[i]));
    }
}

/// The path that a step writes.
pub open spec fn step_path(step: StepView) -> Seq<char> {
    match step {
        StepView::MakeDir { path } => path,
        StepView::WriteFile { path, .. } => path,
    }
}

} // verus!
