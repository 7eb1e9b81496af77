//! The selector: which entries of a traversal are files to archive.

use crate::name::{extension, split_name, splits};
use crate::path::{FilePath, FilePathView};
use vstd::prelude::*;
use vstd::std_specs::iter::IteratorSpec;
use vstd::string::*;

verus! {

/// `c` with an ASCII capital letter turned into its small letter.
pub open spec fn fold_case(c: char) -> char {
    if 'A' <= c <= 'Z' {
        ((c as u8) + 32) as char
    } else {
        c
    }
}

/// Whether two texts are equal when ASCII letters differ in case only.
pub open spec fn same_ignoring_case(a: Seq<char>, b: Seq<char>) -> bool {
    &&& a.len() == b.len()
    &&& forall|i: int| 0 <= i < a.len() ==> fold_case(a[i]) == fold_case(b[i])
}

/// Turns an ASCII capital letter into its small letter.
fn fold(c: char) -> (folded: char)
    ensures
        folded == fold_case(c),
{
    if 'A' <= c && c <= 'Z' {
        ((c as u8) + 32) as char
    } else {
        c
    }
}

/// Compares two texts without regard to the case of ASCII letters.
pub fn eq_ignoring_case(a: &str, b: &str) -> (same: bool)
    ensures
        same == same_ignoring_case(a@, b@),
{
    let n = a.unicode_len();
    if b.unicode_len() != n {
        return false;
    }
    let mut left = a.chars();
    let mut right = b.chars();
    let mut i: usize = 0;
    while i < n
        invariant
            n == a@.len(),
            n == b@.len(),
            i <= n,
            left.remaining() == a@.subrange(i as int, n as int),
            right.remaining() == b@.subrange(i as int, n as int),
            left.obeys_prophetic_iter_laws(),
            right.obeys_prophetic_iter_laws(),
            forall|k: int| 0 <= k < i ==> fold_case(a@[k]) == fold_case(b@[k]),
        decreases n - i,
    {
        let x = left.next();
        let y = right.next();
        proof {
            assert(a@.subrange(i as int, n as int).drop_first() =~= a@.subrange(i + 1, n as int));
            assert(b@.subrange(i as int, n as int).drop_first() =~= b@.subrange(i + 1, n as int));
            assert(a@.subrange(i as int, n as int)[0] == a@[i as int]);
            assert(b@.subrange(i as int, n as int)[0] == b@[i as int]);
        }
        match (x, y) {
            (Some(c), Some(d)) => {
                if fold(c) != fold(d) {
                    return false;
                }
            },
            _ => {},
        }
        i = i + 1;
    }
    true
}

/// Whether `ext` is, case aside, one of the extensions of `list`.
pub open spec fn allowed(list: Seq<Seq<char>>, ext: Seq<char>) -> bool {
    exists|i: int| 0 <= i < list.len() && same_ignoring_case(#[trigger] list[i], ext)
}

/// The extensions of camera raw files.
pub open spec fn raw_extensions() -> Seq<Seq<char>> {
    seq![seq!['c', 'r', '3'], seq!['r', 'a', 'w'], seq!['n', 'e', 'f']]
}

/// The extensions that mark a file for archiving, compared without regard
/// to the case of ASCII letters.
#[derive(Debug)]
pub struct AllowList {
    extensions: Vec<String>,
}

impl View for AllowList {
    type V = Seq<Seq<char>>;

    closed spec fn view(&self) -> Seq<Seq<char>> {
        self.extensions.deep_view()
    }
}

impl AllowList {
    /// The list of the given extensions, each without its leading `.`.
    pub fn new(extensions: Vec<String>) -> (list: AllowList)
        ensures
            list@ == extensions.deep_view(),
    {
        AllowList { extensions }
    }

    /// The list of the raw-image extensions `cr3`, `raw` and `nef`.
    pub fn raw_images() -> (list: AllowList)
        ensures
            list@ == raw_extensions(),
    {
        let mut extensions: Vec<String> = Vec::new();
        extensions.push("cr3".to_owned());
        extensions.push("raw".to_owned());
        extensions.push("nef".to_owned());
        proof {
            reveal_strlit("cr3");
            reveal_strlit("raw");
            reveal_strlit("nef");
            assert(extensions@[0]@ =~= raw_extensions()[0]);
            assert(extensions@[1]@ =~= raw_extensions()[1]);
            assert(extensions@[2]@ =~= raw_extensions()[2]);
            assert(extensions.deep_view() =~= raw_extensions());
        }
        AllowList { extensions }
    }

    /// Whether the list holds `ext`, case aside.
    pub fn allows(&self, ext: &str) -> (found: bool)
        ensures
            found == allowed(self@, ext@),
    {
        let mut i: usize = 0;
        while i < self.extensions.len()
            invariant
                i <= self.extensions.len(),
                forall|k: int| 0 <= k < i ==> !same_ignoring_case(#[trigger] self@[k], ext@),
            decreases self.extensions.len() - i,
        {
            assert(self@[i as int] == self.extensions@[i as int]@);
            if eq_ignoring_case(self.extensions[i].as_str(), ext) {
                return true;
            }
            i = i + 1;
        }
        false
    }
}

/// One entry of a traversal: a path and whether a regular file lies there.
/// An entry whose kind could not be found out is no file.
#[derive(Debug, PartialEq, Eq)]
pub struct Entry {
    pub path: FilePath,
    pub is_file: bool,
}

/// What an `Entry` stands for.
pub struct EntryView {
    pub path: FilePathView,
    pub is_file: bool,
}

impl View for Entry {
    type V = EntryView;

    open spec fn view(&self) -> EntryView {
        EntryView { path: self.path@, is_file: self.is_file }
    }
}

impl DeepView for Entry {
    type V = EntryView;

    open spec fn deep_view(&self) -> EntryView {
        self@
    }
}

/// Whether an entry is a file to archive: a regular file whose name has an
/// extension that the list allows.
pub open spec fn is_candidate(entry: EntryView, allow: Seq<Seq<char>>) -> bool {
    entry.is_file && match extension(entry.path.name) {
        Some(ext) => allowed(allow, ext),
        None => false,
    }
}

/// The path of an entry that is a file to archive.
pub open spec fn candidate_path(allow: Seq<Seq<char>>) -> spec_fn(EntryView) -> Option<
    FilePathView,
> {
    |entry: EntryView|
        if is_candidate(entry, allow) {
            Some(entry.path)
        } else {
            None
        }
}

/// The files to archive among `entries`, in the order of the traversal.
pub open spec fn selected(entries: Seq<EntryView>, allow: Seq<Seq<char>>) -> Seq<FilePathView> {
    entries.filter_map(candidate_path(allow))
}

/// A file selected for archiving. Its name has an extension.
#[derive(Debug, PartialEq, Eq)]
pub struct Candidate {
    path: FilePath,
}

impl View for Candidate {
    type V = FilePathView;

    closed spec fn view(&self) -> FilePathView {
        self.path@
    }
}

impl DeepView for Candidate {
    type V = FilePathView;

    open spec fn deep_view(&self) -> FilePathView {
        self@
    }
}

impl Clone for Candidate {
    fn clone(&self) -> (copy: Candidate)
        ensures
            copy@ == self@,
    {
        proof {
            use_type_invariant(self);
        }
        Candidate { path: self.path.clone() }
    }
}

impl Candidate {
    #[verifier::type_invariant]
    spec fn has_extension(self) -> bool {
        splits(self.path.name@)
    }

    /// The entry as a candidate, if it is a file to archive.
    pub fn select(entry: &Entry, allow: &AllowList) -> (candidate: Option<Candidate>)
        ensures
            candidate.deep_view() == candidate_path(allow@)(entry@),
    {
        if !entry.is_file {
            return None;
        }
        let (_, ext) = split_name(entry.path.name.as_str());
        match ext {
            Some(e) => {
                if allow.allows(e.as_str()) {
                    Some(Candidate { path: entry.path.clone() })
                } else {
                    None
                }
            },
            None => None,
        }
    }

    /// Where the candidate lies.
    pub fn path(&self) -> (path: &FilePath)
        ensures
            path@ == self@,
            splits(path@.name),
    {
        proof {
            use_type_invariant(self);
        }
        &self.path
    }
}

/// Selects the files to archive among the entries of a traversal: the
/// regular files whose extension the list allows, in their order.
pub fn select(entries: &Vec<Entry>, allow: &AllowList) -> (candidates: Vec<Candidate>)
    ensures
        candidates.deep_view() == selected(entries.deep_view(), allow@),
{
    let mut candidates: Vec<Candidate> = Vec::new();
    let ghost all = entries.deep_view();
    let ghost pick = candidate_path(allow@);
    let mut i: usize = 0;
    while i < entries.len()
        invariant
            i <= entries.len(),
            all == entries.deep_view(),
            pick == candidate_path(allow@),
            candidates.deep_view() == all.take(i as int).filter_map(pick),
        decreases entries.len() - i,
    {
        proof {
            all.lemma_filter_map_take_succ(pick, i as int);
            assert(all[i as int] == entries@[i as int]@);
        }
        let ghost before = candidates.deep_view();
        match Candidate::select(&entries[i], allow) {
            Some(candidate) => {
                candidates.push(candidate);
                assert(candidates.deep_view() =~= before + seq![candidate@]);
            },
            None => {
                assert(candidates.deep_view() =~= before + Seq::<FilePathView>::empty());
            },
        }
        i = i + 1;
    }
    assert(all.take(i as int) =~= all);
    candidates
}

/// A path is selected exactly when some entry holds it that is a regular
/// file with an allowed extension.
pub proof fn law_selected_iff_candidate(
    entries: Seq<EntryView>,
    allow: Seq<Seq<char>>,
    path: FilePathView,
)
    ensures
        selected(entries, allow).contains(path) <==> exists|i: int|
            0 <= i < entries.len() && is_candidate(#[trigger] entries[i], allow) && entries[i].path
                == path,
    decreases entries.len(),
{
    let pick = candidate_path(allow);
    if entries.len() > 0 {
        let front = entries.drop_last();
        let last = entries.last();
        law_selected_iff_candidate(front, allow, path);
        let tail = match pick(last) {
            Some(p) => seq![p],
            None => Seq::<FilePathView>::empty(),
        };
        assert(selected(entries, allow) =~= selected(front, allow) + tail);
        if selected(entries, allow).contains(path) {
            let k = choose|k: int|
                0 <= k < selected(entries, allow).len() && selected(entries, allow)[k] == path;
            if k < selected(front, allow).len() {
                assert(selected(front, allow)[k] == path);
                let i = choose|i: int|
                    0 <= i < front.len() && is_candidate(#[trigger] front[i], allow)
                        && front[i].path == path;
                assert(entries[i] == front[i]);
            } else {
                assert(entries[entries.len() - 1] == last);
            }
        }
        if exists|i: int|
            0 <= i < entries.len() && is_candidate(#[trigger] entries[i], allow) && entries[i].path
                == path {
            let i = choose|i: int|
                0 <= i < entries.len() && is_candidate(#[trigger] entries[i], allow)
                    && entries[i].path == path;
            if i < front.len() {
                assert(front[i] == entries[i]);
                assert(selected(front, allow).contains(path));
                let k = choose|k: int|
                    0 <= k < selected(front, allow).len() && selected(front, allow)[k] == path;
                assert(selected(entries, allow)[k] == path);
            } else {
                assert(selected(entries, allow)[selected(front, allow).len() as int] == path);
            }
        }
    }
}

} // verus!
