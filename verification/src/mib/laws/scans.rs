//! Which files are loaded, and how their paths are met.

use crate::mib::files::{
    ascii_lower, checked_size, file_text, is_mib_extension, is_mib_file, mib_path,
    same_ignoring_case, EntryKind, MibPath, PathKind, ScanActionView, ScanEntry, ScanEvent,
    ScanView,
};
use vstd::prelude::*;
use vstd::string::*;

verus! {

/// The text mentions the other.
pub open spec fn mentions(text: Seq<char>, other: Seq<char>) -> bool {
    exists|start: int| #[trigger]
        text.subrange(start, start + other.len()) == other && 0 <= start && start + other.len()
            <= text.len()
}

proof fn lemma_mentions(front: Seq<char>, other: Seq<char>, behind: Seq<char>)
    ensures
        mentions(front + other + behind, other),
{
    let text = front + other + behind;
    let start = front.len() as int;
    assert(text.subrange(start, start + other.len()) =~= other);
}

/// Two characters are the same, or the same letter of ASCII in two cases.
pub open spec fn is_same_letter(left: char, right: char) -> bool {
    ||| left == right
    ||| 'a' <= left <= 'z' && left as int - right as int == 'a' as int - 'A' as int
    ||| 'a' <= right <= 'z' && right as int - left as int == 'a' as int - 'A' as int
}

/// Two texts are the same but for the case of their letters.
pub open spec fn has_same_letters(left: Seq<char>, right: Seq<char>) -> bool {
    left.len() == right.len() && forall|i: int|
        0 <= i < left.len() ==> is_same_letter(#[trigger] left[i], right[i])
}

proof fn lemma_same_letter(left: char, right: char)
    ensures
        is_same_letter(left, right) <==> ascii_lower(left) == ascii_lower(right),
{
}

proof fn lemma_same_letters(left: Seq<char>, right: Seq<char>)
    ensures
        has_same_letters(left, right) <==> same_ignoring_case(left, right),
{
    let low = |character: char| ascii_lower(character);
    let a = left.map_values(low);
    let b = right.map_values(low);
    if has_same_letters(left, right) {
        assert forall|i: int| 0 <= i < a.len() implies a[i] == b[i] by {
            assert(is_same_letter(left[i], right[i]));
            lemma_same_letter(left[i], right[i]);
        }
        assert(a =~= b);
    }
    if same_ignoring_case(left, right) {
        assert(a.len() == b.len());
        assert forall|i: int| 0 <= i < left.len() implies is_same_letter(
            #[trigger] left[i],
            right[i],
        ) by {
            assert(a[i] == b[i]);
            lemma_same_letter(left[i], right[i]);
        }
    }
}

/// Files without an extension are loaded, and those with one of four, in whatever case. No others
/// are.
pub proof fn extensions_are_those_of_modules(extension: Seq<char>)
    ensures
        is_mib_extension(None),
        is_mib_extension(Some(extension)) <==> has_same_letters(extension, "mib"@)
            || has_same_letters(extension, "my"@) || has_same_letters(extension, "smi"@)
            || has_same_letters(extension, "txt"@),
{
    lemma_same_letters(extension, "mib"@);
    lemma_same_letters(extension, "my"@);
    lemma_same_letters(extension, "smi"@);
    lemma_same_letters(extension, "txt"@);
}

/// A file of up to eight mebibytes may be read. The error for any other names the file.
pub proof fn large_files_are_refused(path: Seq<char>, size: Result<u64, String>)
    ensures
        checked_size(path, size) is Ok <==> size is Ok && size->Ok_0 <= 8 * 1024 * 1024,
        checked_size(path, size) matches Err(error) ==> mentions(error, path),
        size matches Err(reason) ==> checked_size(path, size) is Err && mentions(
            checked_size(path, size)->Err_0,
            reason@,
        ),
{
    match size {
        Err(reason) => {
            let error = checked_size(path, size)->Err_0;
            let front = "Failed to read MIB file "@;
            lemma_mentions(front, path, ": "@ + reason@);
            assert(error =~= front + path + (": "@ + reason@));
            lemma_mentions(front + path + ": "@, reason@, Seq::empty());
            assert(error =~= front + path + ": "@ + reason@ + Seq::empty());
        },
        Ok(size) => {
            if size > 8 * 1024 * 1024 {
                let error = checked_size(path, Ok(size))->Err_0;
                let front = "MIB file "@;
                let behind = error.skip((front + path).len() as int);
                lemma_mentions(front, path, behind);
                assert(error =~= front + path + behind);
            }
        },
    }
}

/// A file that is read is read as text, and the error for any other names it.
pub proof fn unreadable_files_are_named(path: Seq<char>, bytes: Result<Vec<u8>, String>)
    ensures
        file_text(path, bytes) is Ok <==> bytes is Ok,
        bytes matches Err(reason) ==> mentions(file_text(path, bytes)->Err_0, path) && mentions(
            file_text(path, bytes)->Err_0,
            reason@,
        ),
{
    if let Err(reason) = bytes {
        let error = file_text(path, bytes)->Err_0;
        let front = "Failed to read MIB file "@;
        lemma_mentions(front, path, ": "@ + reason@);
        assert(error =~= front + path + (": "@ + reason@));
        lemma_mentions(front + path + ": "@, reason@, Seq::empty());
        assert(error =~= front + path + ": "@ + reason@ + Seq::empty());
    }
}

/// A path that is a file or leads to one is that file, which then must be read. A directory is to be
/// scanned. Any other path is an error that names it.
pub proof fn paths_are_files_or_directories(id: usize, path: Seq<char>, kind: PathKind)
    ensures
        kind is File || kind is LinkToFile <==> mib_path(id, path, kind) is Ok && mib_path(
            id,
            path,
            kind,
        )->Ok_0 is File,
        mib_path(id, path, kind) matches Ok(MibPath::File(file)) ==> file.id == id
            && file.required,
        kind is Directory <==> mib_path(id, path, kind) is Ok && mib_path(id, path, kind)->Ok_0
            is Directory,
        mib_path(id, path, kind) matches Err(error) ==> mentions(error, path),
        kind matches PathKind::Unreadable(reason) ==> mentions(
            mib_path(id, path, kind)->Err_0,
            reason@,
        ),
        kind matches PathKind::DanglingLink(reason) ==> mentions(
            mib_path(id, path, kind)->Err_0,
            reason@,
        ),
{
    if let Err(error) = mib_path(id, path, kind) {
        let front = match kind {
            PathKind::Unreadable(_) => "Failed to read MIB path "@,
            PathKind::DanglingLink(_) => "Failed to read symlinked MIB path "@,
            _ => "MIB path "@,
        };
        let behind = error.skip((front + path).len() as int);
        lemma_mentions(front, path, behind);
        assert(error =~= front + path + behind);
        match kind {
            PathKind::Unreadable(reason) => {
                lemma_mentions(front + path + ": "@, reason@, Seq::empty());
                assert(error =~= front + path + ": "@ + reason@ + Seq::empty());
            },
            PathKind::DanglingLink(reason) => {
                lemma_mentions(front + path + ": "@, reason@, Seq::empty());
                assert(error =~= front + path + ": "@ + reason@ + Seq::empty());
            },
            _ => {},
        }
    }
}

/// A directory is opened unless it lies too deep, and once it ends the scan is where it was before.
/// It is done when the directory that it started with ends.
pub proof fn directories_are_scanned_through(scan: ScanView, entry: ScanEntry)
    requires
        scan.open.len() > 0,
        entry.kind == EntryKind::Directory,
    ensures
        scan.open.len() <= 32 ==> {
            let opened = scan.after(ScanEvent::Entry(entry));
            &&& opened.1 == ScanActionView::Open(entry.id)
            &&& opened.0.open.len() == scan.open.len() + 1
            &&& opened.0.open.last() == entry.path@
            &&& opened.0.after(ScanEvent::End) == (scan, ScanActionView::Next)
        },
        scan.open.len() > 32 ==> {
            let refused = scan.after(ScanEvent::Entry(entry));
            &&& refused.0 == scan
            &&& refused.1 is Fail
            &&& mentions(refused.1->Fail_0, entry.path@)
        },
        scan.after(ScanEvent::End).1 == ScanActionView::Done <==> scan.open.len() == 1,
        scan.after(ScanEvent::End).0.files == scan.files,
{
    let opened = scan.after(ScanEvent::Entry(entry));
    if scan.open.len() <= 32 {
        assert(scan.open.push(entry.path@).drop_last() =~= scan.open);
        assert(opened.0.after(ScanEvent::End).0 =~= scan);
    } else {
        let error = opened.1->Fail_0;
        let front = "MIB directory "@;
        let behind = error.skip((front + entry.path@).len() as int);
        lemma_mentions(front, entry.path@, behind);
        assert(error =~= front + entry.path@ + behind);
    }
}

/// A link that leads nowhere is warned of, a link to a directory is not followed, and what is
/// neither file nor directory is passed over. None of them changes anything. Files go into the
/// directories that are open, and there may not be more than so many.
pub proof fn other_entries_are_passed_over(scan: ScanView, entry: ScanEntry)
    ensures
        entry.kind == EntryKind::DanglingLink ==> scan.after(ScanEvent::Entry(entry)) == (
            scan,
            ScanActionView::WarnUnreadable,
        ),
        entry.kind == EntryKind::LinkToOther || entry.kind == EntryKind::Other ==> scan.after(
            ScanEvent::Entry(entry),
        ) == (scan, ScanActionView::Next),
        (entry.kind == EntryKind::File || entry.kind == EntryKind::LinkToFile)
            && scan.files.len() < 16 * 1024 ==> scan.after(ScanEvent::Entry(entry)).1
            == ScanActionView::Next && scan.after(ScanEvent::Entry(entry)).0.open == scan.open,
        is_mib_file(entry) && !scan.canonical_files.contains(entry.canonical@) && scan.files.len()
            >= 16 * 1024 ==> scan.after(ScanEvent::Entry(entry)).1 is Fail,
{
}

/// A directory that cannot be read ends the scan with an error that names it.
pub proof fn unreadable_directories_are_named(scan: ScanView, reason: String)
    requires
        scan.open.len() > 0,
    ensures
        forall|event: ScanEvent|
            #![trigger scan.after(event)]
            event == ScanEvent::DirectoryUnreadable(reason) || event == ScanEvent::EntryUnreadable(
                reason,
            ) || event == ScanEvent::EntryTypeUnreadable(reason) ==> {
                &&& scan.after(event).1 is Fail
                &&& mentions(scan.after(event).1->Fail_0, scan.open.last())
                &&& mentions(scan.after(event).1->Fail_0, reason@)
            },
{
    assert forall|event: ScanEvent|
        #![trigger scan.after(event)]
        event == ScanEvent::DirectoryUnreadable(reason) || event == ScanEvent::EntryUnreadable(
            reason,
        ) || event == ScanEvent::EntryTypeUnreadable(reason) implies {
        &&& scan.after(event).1 is Fail
        &&& mentions(scan.after(event).1->Fail_0, scan.open.last())
        &&& mentions(scan.after(event).1->Fail_0, reason@)
    } by {
        let error = scan.after(event).1->Fail_0;
        let front = match event {
            ScanEvent::DirectoryUnreadable(_) => "Failed to read MIB directory "@,
            ScanEvent::EntryUnreadable(_) => "Failed to read MIB directory entry in "@,
            _ => "Failed to read MIB directory entry type in "@,
        };
        let path = scan.open.last();
        let behind = ": "@ + reason@;
        lemma_mentions(front, path, behind);
        assert(error =~= front + path + behind);
        lemma_mentions(front + path + ": "@, reason@, Seq::empty());
        assert(error =~= front + path + ": "@ + reason@ + Seq::empty());
    }
}

/// A file that must be read is taken in whatever its extension, and any other only with one of a
/// module. It is taken in behind the files before it, unless its canonical path has come up or there
/// are too many.
pub proof fn files_are_taken_in_once(
    scan: ScanView,
    id: usize,
    extension: Option<Seq<char>>,
    canonical: Seq<char>,
    path: Seq<Seq<u8>>,
    required: bool,
)
    ensures
        ({
            let (after, result) = scan.pushed(id, extension, canonical, path, required);
            let wanted = required || is_mib_extension(extension);
            &&& !wanted || scan.canonical_files.contains(canonical) ==> after == scan && result
                is Ok
            &&& wanted && !scan.canonical_files.contains(canonical) ==> {
                &&& after.canonical_files.contains(canonical)
                &&& result is Ok <==> scan.files.len() < 16 * 1024
                &&& result is Err ==> after.files == scan.files
                &&& result is Ok ==> {
                    &&& after.files.drop_last() == scan.files
                    &&& after.files.last().file.id == id
                    &&& after.files.last().file.required == required
                    &&& after.files.last().components == path
                }
            }
            &&& after.open == scan.open
            &&& scan.canonical_files.subset_of(after.canonical_files)
        }),
{
    let (after, result) = scan.pushed(id, extension, canonical, path, required);
    if after.files.len() > scan.files.len() {
        assert(after.files.drop_last() =~= scan.files);
    }
}

} // verus!
