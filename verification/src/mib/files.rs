//! Which files a MIB path stands for, and what is read of them.

use crate::mib::paths::{
    components, path_less, path_less_is_irreflexive, path_less_is_total, path_less_is_transitive,
    path_precedes,
};
use crate::text::{
    chars_of, decimal, lossy_text, opt_str, opt_text, render_decimal, texts, utf8_lossy,
};
use vstd::hash_set::StringHashSet;
use vstd::prelude::*;
use vstd::string::*;
use vstd::utf8::{decode_utf8, valid_utf8};

verus! {

pub const MAX_MIB_FILE_COUNT: usize = 16_384;

pub const MAX_MIB_DIRECTORY_DEPTH: usize = 32;

pub const MAX_MIB_FILE_BYTES: u64 = 8_388_608;

/// A letter of ASCII in lower case, any other character as it is.
pub open spec fn ascii_lower(character: char) -> char {
    if 'A' <= character <= 'Z' {
        (character as u32 + 32) as char
    } else {
        character
    }
}

/// Two texts that differ at most in the case of ASCII letters.
pub open spec fn same_ignoring_case(left: Seq<char>, right: Seq<char>) -> bool {
    left.map_values(|character: char| ascii_lower(character)) == right.map_values(
        |character: char| ascii_lower(character),
    )
}

fn to_lower(character: char) -> (r: char)
    ensures
        r == ascii_lower(character),
{
    if 'A' <= character && character <= 'Z' {
        (character as u8 + 32) as char
    } else {
        character
    }
}

fn equal_ignoring_case(left: &str, right: &str) -> (r: bool)
    ensures
        r == same_ignoring_case(left@, right@),
{
    let a = chars_of(left);
    let b = chars_of(right);
    let ghost low = |character: char| ascii_lower(character);
    let ghost lower_a = left@.map_values(low);
    let ghost lower_b = right@.map_values(low);
    if a.len() != b.len() {
        assert(lower_a.len() != lower_b.len());
        return false;
    }
    for index in 0..a.len()
        invariant
            a@ == left@,
            b@ == right@,
            a@.len() == b@.len(),
            low == (|character: char| ascii_lower(character)),
            lower_a == left@.map_values(low),
            lower_b == right@.map_values(low),
            forall|i: int| 0 <= i < index ==> lower_a[i] == lower_b[i],
    {
        if to_lower(a[index]) != to_lower(b[index]) {
            assert(lower_a[index as int] != lower_b[index as int]);
            return false;
        }
    }
    assert(lower_a =~= lower_b);
    true
}

/// The extensions of the files that directory scans load. Files without an extension are loaded
/// too.
pub open spec fn is_mib_extension(extension: Option<Seq<char>>) -> bool {
    match extension {
        None => true,
        Some(extension) => {
            ||| same_ignoring_case(extension, "mib"@)
            ||| same_ignoring_case(extension, "my"@)
            ||| same_ignoring_case(extension, "smi"@)
            ||| same_ignoring_case(extension, "txt"@)
        },
    }
}

/// Whether a directory scan loads a file with this extension.
pub fn has_mib_file_extension(extension: Option<&str>) -> (r: bool)
    ensures
        r == is_mib_extension(opt_str(extension)),
{
    match extension {
        None => true,
        Some(extension) => equal_ignoring_case(extension, "mib") || equal_ignoring_case(
            extension,
            "my",
        ) || equal_ignoring_case(extension, "smi") || equal_ignoring_case(extension, "txt"),
    }
}

/// What the file system says of a configured path.
pub enum PathKind {
    Unreadable(String),
    File,
    Directory,
    /// A link whose target cannot be read.
    DanglingLink(String),
    LinkToFile,
    LinkToDirectory,
    Other,
}

/// A file to be loaded, by the number that it goes by.
#[derive(Clone, Copy, Debug, PartialEq, Eq, Structural)]
pub struct MibFile {
    pub id: usize,
    /// Whether failing to read the file fails the whole.
    pub required: bool,
}

/// What a configured path stands for.
#[derive(Clone, Copy, Debug, PartialEq, Eq, Structural)]
pub enum MibPath {
    /// A file to be loaded.
    File(MibFile),
    /// A directory to be scanned.
    Directory,
}

/// What a configured path stands for, or why it cannot be loaded. Failing to read a file that is
/// configured by its own path fails the whole. Links to directories are not followed.
pub open spec fn mib_path(id: usize, path: Seq<char>, kind: PathKind) -> Result<
    MibPath,
    Seq<char>,
> {
    match kind {
        PathKind::Unreadable(error) => Err("Failed to read MIB path "@ + path + ": "@ + error@),
        PathKind::File => Ok(MibPath::File(MibFile { id, required: true })),
        PathKind::Directory => Ok(MibPath::Directory),
        PathKind::DanglingLink(error) => Err(
            "Failed to read symlinked MIB path "@ + path + ": "@ + error@,
        ),
        PathKind::LinkToFile => Ok(MibPath::File(MibFile { id, required: true })),
        PathKind::LinkToDirectory => Err(
            "MIB path "@ + path
                + " is a symlinked directory; symlinked directories are not followed"@,
        ),
        PathKind::Other => Err("MIB path "@ + path + " is not a file or directory"@),
    }
}

/// A result with the error message as characters.
pub open spec fn messaged<T>(result: Result<T, String>) -> Result<T, Seq<char>> {
    match result {
        Ok(value) => Ok(value),
        Err(error) => Err(error@),
    }
}

/// What a configured path, which goes by the number `id`, stands for, or why it cannot be loaded.
pub fn mib_files(id: usize, path: &str, kind: PathKind) -> (r: Result<MibPath, String>)
    ensures
        messaged(r) == mib_path(id, path@, kind),
{
    match kind {
        PathKind::Unreadable(error) => Err(
            "Failed to read MIB path ".to_owned().concat(path).concat(": ").concat(error.as_str()),
        ),
        PathKind::File => Ok(MibPath::File(MibFile { id, required: true })),
        PathKind::Directory => Ok(MibPath::Directory),
        PathKind::DanglingLink(error) => Err(
            "Failed to read symlinked MIB path ".to_owned().concat(path).concat(": ").concat(
                error.as_str(),
            ),
        ),
        PathKind::LinkToFile => Ok(MibPath::File(MibFile { id, required: true })),
        PathKind::LinkToDirectory => Err(
            "MIB path ".to_owned().concat(path).concat(
                " is a symlinked directory; symlinked directories are not followed",
            ),
        ),
        PathKind::Other => Err(
            "MIB path ".to_owned().concat(path).concat(" is not a file or directory"),
        ),
    }
}

/// What a directory holds at one place.
#[derive(Clone, Copy, Debug, PartialEq, Eq, Structural)]
pub enum EntryKind {
    File,
    Directory,
    /// A link whose target cannot be read.
    DanglingLink,
    LinkToFile,
    /// A link to anything but a file.
    LinkToOther,
    Other,
}

/// An entry of a directory.
pub struct ScanEntry {
    /// The number that the entry goes by.
    pub id: usize,
    pub path: String,
    pub kind: EntryKind,
    pub extension: Option<String>,
    /// The canonical path, or the path itself where there is none.
    pub canonical: String,
    /// The components of the path below the directory that is scanned.
    pub components: Vec<Vec<u8>>,
}

/// What the scan of the directory opened last has met.
pub enum ScanEvent {
    DirectoryUnreadable(String),
    EntryUnreadable(String),
    EntryTypeUnreadable(String),
    Entry(ScanEntry),
    End,
}

/// What a scan does next.
pub enum ScanAction {
    /// Go on in the directory opened last.
    Next,
    /// Warn of an entry that cannot be read, and go on.
    WarnUnreadable,
    /// Open the directory that goes by this number.
    Open(usize),
    /// Every directory has been read.
    Done,
    /// Give up.
    Fail(String),
}

/// A [`ScanAction`] as characters.
pub ghost enum ScanActionView {
    Next,
    WarnUnreadable,
    Open(usize),
    Done,
    Fail(Seq<char>),
}

impl View for ScanAction {
    type V = ScanActionView;

    open spec fn view(&self) -> ScanActionView {
        match self {
            ScanAction::Next => ScanActionView::Next,
            ScanAction::WarnUnreadable => ScanActionView::WarnUnreadable,
            ScanAction::Open(id) => ScanActionView::Open(*id),
            ScanAction::Done => ScanActionView::Done,
            ScanAction::Fail(error) => ScanActionView::Fail(error@),
        }
    }
}

/// A file that a scan has taken in, with the components of its path.
struct TakenFile {
    file: MibFile,
    components: Vec<Vec<u8>>,
}

/// A file that a scan has taken in, with the components of its path.
#[verifier::ext_equal]
pub ghost struct TakenView {
    pub file: MibFile,
    pub components: Seq<Seq<u8>>,
}

impl View for TakenFile {
    type V = TakenView;

    closed spec fn view(&self) -> TakenView {
        TakenView { file: self.file, components: components(self.components@) }
    }
}

spec fn taken_view(files: Seq<TakenFile>) -> Seq<TakenView> {
    files.map_values(|taken: TakenFile| taken@)
}

/// A file put where the order of paths wants it, behind those of the same path.
pub open spec fn placed(files: Seq<TakenView>, file: TakenView) -> Seq<TakenView>
    decreases files.len(),
{
    if files.len() == 0 || !path_less(file.components, files.last().components) {
        files.push(file)
    } else {
        placed(files.drop_last(), file).push(files.last())
    }
}

/// The files in the order of their paths.
pub open spec fn sorted_files(files: Seq<TakenView>) -> Seq<TakenView>
    decreases files.len(),
{
    if files.len() == 0 {
        files
    } else {
        placed(sorted_files(files.drop_last()), files.last())
    }
}

/// No file comes before one whose path precedes its own.
pub open spec fn in_path_order(files: Seq<TakenView>) -> bool {
    forall|earlier: int, later: int|
        0 <= earlier < later < files.len() ==> !path_less(
            (#[trigger] files[later]).components,
            (#[trigger] files[earlier]).components,
        )
}

proof fn lemma_placed(files: Seq<TakenView>, file: TakenView)
    requires
        in_path_order(files),
    ensures
        in_path_order(placed(files, file)),
        placed(files, file).to_multiset() == files.to_multiset().insert(file),
        forall|index: int|
            0 <= index < placed(files, file).len() ==> (#[trigger] placed(files, file)[index])
                == file || files.contains(placed(files, file)[index]),
    decreases files.len(),
{
    broadcast use vstd::seq_lib::group_to_multiset_ensures;

    let all = placed(files, file);
    if files.len() == 0 || !path_less(file.components, files.last().components) {
        assert forall|earlier: int, later: int| 0 <= earlier < later < all.len() implies !path_less(
            (#[trigger] all[later]).components,
            (#[trigger] all[earlier]).components,
        ) by {
            if later == files.len() && path_less(file.components, files[earlier].components) {
                path_less_is_total(files[earlier].components, files.last().components);
                if files[earlier].components != files.last().components {
                    path_less_is_transitive(
                        file.components,
                        files[earlier].components,
                        files.last().components,
                    );
                }
            }
        }
        assert forall|index: int| 0 <= index < all.len() implies (#[trigger] all[index]) == file
            || files.contains(all[index]) by {
            if index < files.len() {
                assert(all[index] == files[index]);
            }
        }
    } else {
        let front = files.drop_last();
        let before = placed(front, file);
        lemma_placed(front, file);
        assert forall|index: int| 0 <= index < before.len() implies !path_less(
            files.last().components,
            (#[trigger] before[index]).components,
        ) by {
            if before[index] == file {
                if path_less(files.last().components, file.components) {
                    path_less_is_transitive(
                        file.components,
                        files.last().components,
                        file.components,
                    );
                    path_less_is_irreflexive(file.components);
                }
            } else {
                let at = choose|at: int| 0 <= at < front.len() && front[at] == before[index];
                assert(files[at] == before[index]);
            }
        }
        assert(files =~= front.push(files.last()));
        assert forall|index: int| 0 <= index < all.len() implies (#[trigger] all[index]) == file
            || files.contains(all[index]) by {
            if index < before.len() {
                assert(all[index] == before[index]);
                if before[index] != file {
                    let at = choose|at: int| 0 <= at < front.len() && front[at] == before[index];
                    assert(files[at] == before[index]);
                }
            } else {
                assert(all[index] == files[files.len() - 1]);
            }
        }
        assert(all.to_multiset() =~= files.to_multiset().insert(file));
    }
}

/// The files of a scan are loaded in the order of their paths, and each of them is.
pub proof fn files_are_in_path_order(files: Seq<TakenView>)
    ensures
        in_path_order(sorted_files(files)),
        sorted_files(files).to_multiset() == files.to_multiset(),
    decreases files.len(),
{
    broadcast use vstd::seq_lib::group_to_multiset_ensures;

    if files.len() > 0 {
        files_are_in_path_order(files.drop_last());
        lemma_placed(sorted_files(files.drop_last()), files.last());
        assert(files =~= files.drop_last().push(files.last()));
    }
}

/// Puts a file where the order of paths wants it.
fn place(files: &mut Vec<TakenFile>, file: TakenFile)
    ensures
        taken_view(final(files)@) == placed(taken_view(old(files)@), file@),
{
    let ghost before = taken_view(files@);
    let mut index: usize = files.len();
    assert(before.take(index as int) =~= before);
    assert(before.skip(index as int) =~= Seq::empty());
    while index > 0 && path_precedes(&file.components, &files[index - 1].components)
        invariant
            index <= files@.len(),
            before == taken_view(files@),
            placed(before, file@) == placed(before.take(index as int), file@) + before.skip(
                index as int,
            ),
        decreases index,
    {
        let ghost front = before.take(index as int);
        assert(front.last() == files@[index - 1]@);
        assert(front.drop_last() =~= before.take(index - 1));
        assert(placed(front, file@) == placed(front.drop_last(), file@).push(front.last()));
        assert(placed(front.drop_last(), file@).push(front.last()) + before.skip(index as int)
            =~= placed(front.drop_last(), file@) + before.skip(index - 1));
        index -= 1;
    }
    assert(index > 0 ==> before.take(index as int).last() == files@[index - 1]@);
    files.insert(index, file);
    assert(taken_view(files@) =~= before.take(index as int).push(file@) + before.skip(
        index as int,
    ));
}

/// The recursive scan of a directory for MIB files. Links to directories are not followed.
pub struct MibScan {
    open: Vec<String>,
    files: Vec<TakenFile>,
    canonical_files: StringHashSet,
}

/// A [`MibScan`] as mathematical values.
#[verifier::ext_equal]
pub ghost struct ScanView {
    /// The directories that are open, each within the one before.
    pub open: Seq<Seq<char>>,
    /// The files taken in, in order.
    pub files: Seq<TakenView>,
    /// The canonical paths that have come up.
    pub canonical_files: Set<Seq<char>>,
}

impl View for MibScan {
    type V = ScanView;

    closed spec fn view(&self) -> ScanView {
        ScanView {
            open: texts(self.open@),
            files: taken_view(self.files@),
            canonical_files: self.canonical_files@,
        }
    }
}

impl ScanView {
    /// Taking a file in, unless its extension is not that of a MIB file or its canonical path has
    /// come up before. More files than the maximum are an error.
    pub open spec fn pushed(
        self,
        id: usize,
        extension: Option<Seq<char>>,
        canonical: Seq<char>,
        path: Seq<Seq<u8>>,
        required: bool,
    ) -> (ScanView, Result<(), Seq<char>>) {
        if !required && !is_mib_extension(extension) {
            (self, Ok(()))
        } else if self.canonical_files.contains(canonical) {
            (self, Ok(()))
        } else {
            let noted = ScanView { canonical_files: self.canonical_files.insert(canonical), ..self };
            if self.files.len() >= MAX_MIB_FILE_COUNT {
                (
                    noted,
                    Err(
                        "MIB path scan exceeded maximum file count of "@ + decimal(
                            MAX_MIB_FILE_COUNT as nat,
                        ),
                    ),
                )
            } else {
                (
                    ScanView {
                        files: self.files.push(
                            TakenView { file: MibFile { id, required }, components: path },
                        ),
                        ..noted
                    },
                    Ok(()),
                )
            }
        }
    }

    /// What an entry of the directory opened last leads to.
    pub open spec fn after_entry(self, entry: ScanEntry) -> (ScanView, ScanActionView) {
        match entry.kind {
            EntryKind::File | EntryKind::LinkToFile => {
                let (after, result) = self.pushed(
                    entry.id,
                    opt_text(entry.extension),
                    entry.canonical@,
                    components(entry.components@),
                    false,
                );
                match result {
                    Ok(_) => (after, ScanActionView::Next),
                    Err(error) => (after, ScanActionView::Fail(error)),
                }
            },
            EntryKind::Directory => if self.open.len() > MAX_MIB_DIRECTORY_DEPTH {
                (
                    self,
                    ScanActionView::Fail(
                        "MIB directory "@ + entry.path@
                            + " exceeds maximum recursive scan depth of "@ + decimal(
                            MAX_MIB_DIRECTORY_DEPTH as nat,
                        ),
                    ),
                )
            } else {
                (
                    ScanView { open: self.open.push(entry.path@), ..self },
                    ScanActionView::Open(entry.id),
                )
            },
            EntryKind::DanglingLink => (self, ScanActionView::WarnUnreadable),
            EntryKind::LinkToOther | EntryKind::Other => (self, ScanActionView::Next),
        }
    }

    /// What an event leads to.
    pub open spec fn after(self, event: ScanEvent) -> (ScanView, ScanActionView) {
        match event {
            ScanEvent::DirectoryUnreadable(error) => (
                self,
                ScanActionView::Fail(
                    "Failed to read MIB directory "@ + self.open.last() + ": "@ + error@,
                ),
            ),
            ScanEvent::EntryUnreadable(error) => (
                self,
                ScanActionView::Fail(
                    "Failed to read MIB directory entry in "@ + self.open.last() + ": "@ + error@,
                ),
            ),
            ScanEvent::EntryTypeUnreadable(error) => (
                self,
                ScanActionView::Fail(
                    "Failed to read MIB directory entry type in "@ + self.open.last() + ": "@
                        + error@,
                ),
            ),
            ScanEvent::Entry(entry) => self.after_entry(entry),
            ScanEvent::End => (
                ScanView { open: self.open.drop_last(), ..self },
                if self.open.len() == 1 {
                    ScanActionView::Done
                } else {
                    ScanActionView::Next
                },
            ),
        }
    }

    /// The directories and files that a scan may have come by.
    pub open spec fn bounded(self) -> bool {
        &&& self.open.len() <= MAX_MIB_DIRECTORY_DEPTH + 1
        &&& self.files.len() <= MAX_MIB_FILE_COUNT
        &&& self.canonical_files.finite()
        &&& self.files.len() <= self.canonical_files.len()
    }
}

/// However a scan goes on, the directories nest no deeper than the maximum, the files are no more
/// than the maximum, and no canonical path gives more than one file.
pub proof fn scans_stay_bounded(scan: ScanView, event: ScanEvent)
    requires
        scan.bounded(),
        scan.open.len() > 0,
    ensures
        scan.after(event).0.bounded(),
{
}

/// The scan of a directory before anything has been met in it.
pub open spec fn new_scan(path: Seq<char>) -> ScanView {
    ScanView { open: seq![path], files: Seq::empty(), canonical_files: Set::empty() }
}

/// The entry is a MIB file, or a link to one.
pub open spec fn is_mib_file(entry: ScanEntry) -> bool {
    (entry.kind == EntryKind::File || entry.kind == EntryKind::LinkToFile) && is_mib_extension(
        opt_text(entry.extension),
    )
}

impl ScanView {
    /// After a course of events.
    pub open spec fn after_all(self, events: Seq<ScanEvent>) -> ScanView
        decreases events.len(),
    {
        if events.len() == 0 {
            self
        } else {
            self.after_all(events.drop_last()).after(events.last()).0
        }
    }

    /// The scan gives up at none of the events.
    pub open spec fn survives(self, events: Seq<ScanEvent>) -> bool
        decreases events.len(),
    {
        events.len() > 0 ==> self.survives(events.drop_last()) && !(self.after_all(
            events.drop_last(),
        ).after(events.last()).1 is Fail)
    }

    /// The entries that a course of events makes the scan take in as files.
    pub open spec fn taken(self, events: Seq<ScanEvent>) -> Seq<ScanEntry>
        decreases events.len(),
    {
        if events.len() == 0 {
            Seq::empty()
        } else {
            let before = self.after_all(events.drop_last());
            let earlier = self.taken(events.drop_last());
            match events.last() {
                ScanEvent::Entry(entry) => if before.after_entry(entry).0.files.len()
                    > before.files.len() {
                    earlier.push(entry)
                } else {
                    earlier
                },
                _ => earlier,
            }
        }
    }
}

proof fn lemma_course(path: Seq<char>, events: Seq<ScanEvent>)
    ensures
        ({
            let scan = new_scan(path).after_all(events);
            let taken = new_scan(path).taken(events);
            &&& scan.files.len() == taken.len()
            &&& scan.files.len() <= MAX_MIB_FILE_COUNT
            &&& forall|i: int|
                0 <= i < taken.len() ==> scan.canonical_files.contains(
                    (#[trigger] taken[i]).canonical@,
                ) && is_mib_file(taken[i]) && events.contains(ScanEvent::Entry(taken[i]))
            &&& forall|i: int|
                0 <= i < taken.len() ==> (#[trigger] scan.files[i]) == (TakenView {
                    file: MibFile { id: taken[i].id, required: false },
                    components: components(taken[i].components@),
                })
            &&& forall|i: int, j: int|
                0 <= i < j < taken.len() ==> (#[trigger] taken[i]).canonical@ != (
                #[trigger] taken[j]).canonical@
        }),
    decreases events.len(),
{
    if events.len() > 0 {
        let front = events.drop_last();
        lemma_course(path, front);
        let earlier = new_scan(path).taken(front);
        let taken = new_scan(path).taken(events);
        assert(events.last() == events[events.len() - 1]);
        assert forall|entry: ScanEntry| #[trigger]
            front.contains(ScanEvent::Entry(entry)) implies events.contains(
            ScanEvent::Entry(entry),
        ) by {
            let at = choose|at: int| 0 <= at < front.len() && front[at] == ScanEvent::Entry(entry);
            assert(events[at] == ScanEvent::Entry(entry));
        }
        assert forall|i: int| 0 <= i < taken.len() implies events.contains(
            ScanEvent::Entry(#[trigger] taken[i]),
        ) by {
            if i < earlier.len() {
                assert(taken[i] == earlier[i]);
            }
        }
    }
}

/// However a scan goes, each file that it has taken in is one of the MIB files that it has met, no
/// two of them have the same canonical path, none is required, and there are no more of them than
/// the maximum.
pub proof fn scans_take_distinct_files(path: Seq<char>, events: Seq<ScanEvent>)
    ensures
        new_scan(path).after_all(events).files.len() == new_scan(path).taken(events).len(),
        new_scan(path).after_all(events).files.len() <= MAX_MIB_FILE_COUNT,
        forall|i: int|
            0 <= i < new_scan(path).taken(events).len() ==> (#[trigger] new_scan(path).after_all(
                events,
            ).files[i]) == (TakenView {
                file: MibFile { id: new_scan(path).taken(events)[i].id, required: false },
                components: components(new_scan(path).taken(events)[i].components@),
            }),
        forall|i: int|
            0 <= i < new_scan(path).taken(events).len() ==> is_mib_file(
                #[trigger] new_scan(path).taken(events)[i],
            ) && events.contains(ScanEvent::Entry(new_scan(path).taken(events)[i])),
        forall|i: int, j: int|
            0 <= i < j < new_scan(path).taken(events).len() ==> (#[trigger] new_scan(path).taken(
                events,
            )[i]).canonical@ != (#[trigger] new_scan(path).taken(events)[j]).canonical@,
{
    lemma_course(path, events);
}

/// However a scan goes, the files that it has taken in are not required, in whatever order they are
/// loaded.
pub proof fn scanned_files_are_not_required(path: Seq<char>, events: Seq<ScanEvent>)
    ensures
        forall|i: int|
            0 <= i < sorted_files(new_scan(path).after_all(events).files).len() ==> !(
            #[trigger] sorted_files(new_scan(path).after_all(events).files)[i]).file.required,
{
    broadcast use vstd::seq_lib::group_to_multiset_ensures;

    let files = new_scan(path).after_all(events).files;
    lemma_course(path, events);
    files_are_in_path_order(files);
    assert forall|i: int| 0 <= i < sorted_files(files).len() implies !(
    #[trigger] sorted_files(files)[i]).file.required by {
        let file = sorted_files(files)[i];
        assert(sorted_files(files).contains(file));
        assert(files.to_multiset().count(file) > 0);
        assert(files.contains(file));
        let at = choose|at: int| 0 <= at < files.len() && files[at] == file;
        assert(!files[at].file.required);
    }
}

/// A scan that does not give up misses no file: of every MIB file that it has met it has taken in
/// one with the same canonical path.
pub proof fn scans_miss_no_file(path: Seq<char>, events: Seq<ScanEvent>, entry: ScanEntry)
    requires
        new_scan(path).survives(events),
        events.contains(ScanEvent::Entry(entry)),
        is_mib_file(entry),
    ensures
        exists|i: int|
            0 <= i < new_scan(path).taken(events).len() && (#[trigger] new_scan(path).taken(
                events,
            )[i]).canonical@ == entry.canonical@,
{
    lemma_survivors_take(path, events);
    let at = choose|at: int| 0 <= at < events.len() && events[at] == ScanEvent::Entry(entry);
    lemma_met(path, events, at, entry);
    assert(new_scan(path).after_all(events).canonical_files.contains(entry.canonical@));
}

/// A surviving scan has noted only the canonical paths of what it has taken in.
proof fn lemma_survivors_take(path: Seq<char>, events: Seq<ScanEvent>)
    requires
        new_scan(path).survives(events),
    ensures
        forall|canonical: Seq<char>| #[trigger]
            new_scan(path).after_all(events).canonical_files.contains(canonical) ==> exists|i: int|
                0 <= i < new_scan(path).taken(events).len() && (#[trigger] new_scan(path).taken(
                    events,
                )[i]).canonical@ == canonical,
    decreases events.len(),
{
    if events.len() > 0 {
        let front = events.drop_last();
        lemma_survivors_take(path, front);
        let earlier = new_scan(path).taken(front);
        let taken = new_scan(path).taken(events);
        let before = new_scan(path).after_all(front);
        let after = new_scan(path).after_all(events);
        assert forall|canonical: Seq<char>| #[trigger]
            after.canonical_files.contains(canonical) implies exists|i: int|
            0 <= i < taken.len() && (#[trigger] taken[i]).canonical@ == canonical by {
            if before.canonical_files.contains(canonical) {
                let i = choose|i: int|
                    0 <= i < earlier.len() && (#[trigger] earlier[i]).canonical@ == canonical;
                assert(taken[i] == earlier[i]);
            } else {
                assert(taken[taken.len() - 1].canonical@ == canonical);
            }
        }
    }
}

/// The canonical path of a MIB file that has been met is noted.
proof fn lemma_met(path: Seq<char>, events: Seq<ScanEvent>, at: int, entry: ScanEntry)
    requires
        0 <= at < events.len(),
        events[at] == ScanEvent::Entry(entry),
        is_mib_file(entry),
    ensures
        new_scan(path).after_all(events).canonical_files.contains(entry.canonical@),
    decreases events.len(),
{
    if at < events.len() - 1 {
        lemma_met(path, events.drop_last(), at, entry);
    }
}

impl MibScan {
    /// The scan of a directory, which is open.
    pub fn new(path: String) -> (r: MibScan)
        ensures
            r@ == new_scan(path@),
    {
        let mut open: Vec<String> = Vec::new();
        open.push(path);
        let scan = MibScan { open, files: Vec::new(), canonical_files: StringHashSet::new() };
        assert(scan@.open =~= seq![path@]);
        assert(scan@.files =~= Seq::empty());
        scan
    }

    /// The number of directories that are open.
    pub fn depth(&self) -> (r: usize)
        ensures
            r == self@.open.len(),
    {
        self.open.len()
    }

    /// Takes a file in.
    pub fn push_mib_file(
        &mut self,
        id: usize,
        extension: Option<&str>,
        canonical: String,
        path: Vec<Vec<u8>>,
        required: bool,
    ) -> (r: Result<(), String>)
        ensures
            (final(self)@, messaged(r)) == old(self)@.pushed(
                id,
                opt_str(extension),
                canonical@,
                components(path@),
                required,
            ),
    {
        if !required && !has_mib_file_extension(extension) {
            return Ok(());
        }
        let ghost before = self.canonical_files@;
        let added: bool = self.canonical_files.insert(canonical);
        if !added {
            assert(before.insert(canonical@) =~= before);
            return Ok(());
        }
        if self.files.len() >= MAX_MIB_FILE_COUNT {
            return Err(
                "MIB path scan exceeded maximum file count of ".to_owned().concat(
                    render_decimal(MAX_MIB_FILE_COUNT as u64).as_str(),
                ),
            );
        }
        let ghost taken = taken_view(self.files@);
        let file = TakenFile { file: MibFile { id, required }, components: path };
        self.files.push(file);
        assert(taken_view(self.files@) =~= taken.push(file@));
        Ok(())
    }

    fn take_entry(&mut self, entry: ScanEntry) -> (r: ScanAction)
        ensures
            (final(self)@, r@) == old(self)@.after_entry(entry),
    {
        match entry.kind {
            EntryKind::File | EntryKind::LinkToFile => {
                let extension: Option<&str> = match &entry.extension {
                    Some(extension) => Some(extension.as_str()),
                    None => None,
                };
                match self.push_mib_file(
                    entry.id,
                    extension,
                    entry.canonical,
                    entry.components,
                    false,
                ) {
                    Ok(_) => ScanAction::Next,
                    Err(error) => ScanAction::Fail(error),
                }
            },
            EntryKind::Directory => {
                if self.open.len() > MAX_MIB_DIRECTORY_DEPTH {
                    return ScanAction::Fail(
                        "MIB directory ".to_owned().concat(entry.path.as_str()).concat(
                            " exceeds maximum recursive scan depth of ",
                        ).concat(render_decimal(MAX_MIB_DIRECTORY_DEPTH as u64).as_str()),
                    );
                }
                let ghost before = self@.open;
                let ghost path = entry.path@;
                self.open.push(entry.path);
                assert(self@.open =~= before.push(path));
                ScanAction::Open(entry.id)
            },
            EntryKind::DanglingLink => ScanAction::WarnUnreadable,
            EntryKind::LinkToOther | EntryKind::Other => ScanAction::Next,
        }
    }

    /// Goes on by what was met in the directory opened last.
    pub fn collect_mib_files(&mut self, event: ScanEvent) -> (r: ScanAction)
        requires
            old(self)@.open.len() > 0,
        ensures
            (final(self)@, r@) == old(self)@.after(event),
    {
        let ghost before = self@.open;
        match event {
            ScanEvent::DirectoryUnreadable(error) => ScanAction::Fail(
                "Failed to read MIB directory ".to_owned().concat(
                    self.open[self.open.len() - 1].as_str(),
                ).concat(": ").concat(error.as_str()),
            ),
            ScanEvent::EntryUnreadable(error) => ScanAction::Fail(
                "Failed to read MIB directory entry in ".to_owned().concat(
                    self.open[self.open.len() - 1].as_str(),
                ).concat(": ").concat(error.as_str()),
            ),
            ScanEvent::EntryTypeUnreadable(error) => ScanAction::Fail(
                "Failed to read MIB directory entry type in ".to_owned().concat(
                    self.open[self.open.len() - 1].as_str(),
                ).concat(": ").concat(error.as_str()),
            ),
            ScanEvent::Entry(entry) => self.take_entry(entry),
            ScanEvent::End => {
                let _ = self.open.pop();
                assert(self@.open =~= before.drop_last());
                if self.open.len() == 0 {
                    ScanAction::Done
                } else {
                    ScanAction::Next
                }
            },
        }
    }

    /// The files, in the order of their paths.
    pub fn into_files(self) -> (r: Vec<MibFile>)
        ensures
            r@ == sorted_files(self@.files).map_values(|taken: TakenView| taken.file),
    {
        let ghost all = self@.files;
        let mut sorted: Vec<TakenFile> = Vec::new();
        assert(taken_view(sorted@) =~= sorted_files(all.take(0)));
        for file in it: self.files
            invariant
                all == taken_view(it.seq()),
                taken_view(sorted@) == sorted_files(all.take(it.index() as int)),
        {
            let ghost front = all.take(it.index() as int);
            let ghost next = all.take(it.index() + 1);
            assert(next.drop_last() =~= front);
            assert(next.last() == file@);
            place(&mut sorted, file);
        }
        assert(all.take(all.len() as int) =~= all);
        let mut files: Vec<MibFile> = Vec::new();
        for index in 0..sorted.len()
            invariant
                files@.len() == index,
                forall|at: int| 0 <= at < index ==> (#[trigger] files@[at]) == sorted@[at].file,
        {
            files.push(sorted[index].file);
        }
        assert(files@ =~= taken_view(sorted@).map_values(|taken: TakenView| taken.file));
        files
    }
}

/// The error for a file that cannot be read.
pub open spec fn unreadable_file(path: Seq<char>, error: Seq<char>) -> Seq<char> {
    "Failed to read MIB file "@ + path + ": "@ + error
}

/// Whether a file of this size may be read.
pub open spec fn checked_size(path: Seq<char>, size: Result<u64, String>) -> Result<
    (),
    Seq<char>,
> {
    match size {
        Err(error) => Err(unreadable_file(path, error@)),
        Ok(size) => if size <= MAX_MIB_FILE_BYTES {
            Ok(())
        } else {
            Err(
                "MIB file "@ + path + " is larger than the maximum supported size of "@ + decimal(
                    MAX_MIB_FILE_BYTES as nat,
                ) + " bytes"@,
            )
        },
    }
}

/// Whether a file of this size may be read.
pub fn check_mib_file_size(path: &str, size: Result<u64, String>) -> (r: Result<(), String>)
    ensures
        messaged(r) == checked_size(path@, size),
{
    match size {
        Err(error) => Err(
            "Failed to read MIB file ".to_owned().concat(path).concat(": ").concat(error.as_str()),
        ),
        Ok(size) => if size <= MAX_MIB_FILE_BYTES {
            Ok(())
        } else {
            Err(
                "MIB file ".to_owned().concat(path).concat(
                    " is larger than the maximum supported size of ",
                ).concat(render_decimal(MAX_MIB_FILE_BYTES).as_str()).concat(" bytes"),
            )
        },
    }
}

/// The text of a file. Vendor MIBs frequently contain Latin-1 text in descriptions, so the bytes are
/// decoded lossily instead of rejecting files that are not valid UTF-8.
pub open spec fn file_text(path: Seq<char>, bytes: Result<Vec<u8>, String>) -> Result<
    Seq<char>,
    Seq<char>,
> {
    match bytes {
        Err(error) => Err(unreadable_file(path, error@)),
        Ok(bytes) => Ok(utf8_lossy(bytes@)),
    }
}

/// The text of a file that was read.
pub fn read_mib_file(path: &str, bytes: Result<Vec<u8>, String>) -> (r: Result<String, String>)
    ensures
        match r {
            Ok(text) => file_text(path@, bytes) == Ok::<_, Seq<char>>(text@) && (valid_utf8(
                bytes->Ok_0@,
            ) ==> text@ == decode_utf8(bytes->Ok_0@)),
            Err(error) => file_text(path@, bytes) == Err::<Seq<char>, _>(error@),
        },
{
    match bytes {
        Err(error) => Err(
            "Failed to read MIB file ".to_owned().concat(path).concat(": ").concat(error.as_str()),
        ),
        Ok(bytes) => Ok(lossy_text(bytes.as_slice())),
    }
}

} // verus!
