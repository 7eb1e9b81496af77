//! The grammar of file names: stem, extension, numbered siblings and the
//! name of the archive made from a file.

use crate::digits::{
    decimal, decimal_string, lemma_decimal_digits, lemma_decimal_injective, lemma_decimal_len,
};
use vstd::prelude::*;
use vstd::std_specs::iter::IteratorSpec;
use vstd::string::*;

verus! {

/// The name of the parent directory entry, which never splits.
pub open spec fn dot_dot() -> Seq<char> {
    seq!['.', '.']
}

/// The index of the last `.` in `name`, or -1 where it holds none.
pub open spec fn last_dot(name: Seq<char>) -> int
    decreases name.len(),
{
    if name.len() == 0 {
        -1
    } else if name.last() == '.' {
        name.len() - 1
    } else {
        last_dot(name.drop_last())
    }
}

/// Whether `name` splits into a stem and an extension: it holds a `.` that
/// is not its first character, and it is not `..`.
pub open spec fn splits(name: Seq<char>) -> bool {
    last_dot(name) > 0 && name != dot_dot()
}

/// The part of `name` before its last `.`, or all of it where it does not
/// split.
pub open spec fn stem(name: Seq<char>) -> Seq<char> {
    if splits(name) {
        name.subrange(0, last_dot(name))
    } else {
        name
    }
}

/// The part of `name` after its last `.`, where it splits.
pub open spec fn extension(name: Seq<char>) -> Option<Seq<char>> {
    if splits(name) {
        Some(name.subrange(last_dot(name) + 1, name.len() as int))
    } else {
        None
    }
}

/// `last_dot` is the position of a `.` that no other `.` follows, or -1
/// where there is none at all.
pub proof fn lemma_last_dot(name: Seq<char>)
    ensures
        -1 <= last_dot(name) < name.len(),
        last_dot(name) >= 0 ==> name[last_dot(name)] == '.',
        forall|j: int| last_dot(name) < j < name.len() ==> name[j] != '.',
    decreases name.len(),
{
    if name.len() > 0 && name.last() != '.' {
        let front = name.drop_last();
        lemma_last_dot(front);
        assert forall|j: int| last_dot(name) < j < name.len() implies name[j] != '.' by {
            if j < front.len() {
                assert(front[j] == name[j]);
            }
        }
    }
}

/// A `.` that no other `.` follows is the last one.
pub proof fn lemma_last_dot_at(name: Seq<char>, at: int)
    requires
        0 <= at < name.len(),
        name[at] == '.',
        forall|j: int| at < j < name.len() ==> name[j] != '.',
    ensures
        last_dot(name) == at,
    decreases name.len(),
{
    if name.last() != '.' {
        lemma_last_dot_at(name.drop_last(), at);
    }
}

/// A name that splits is its stem, a `.` and its extension.
pub proof fn lemma_split_joins(name: Seq<char>)
    requires
        splits(name),
    ensures
        name == stem(name) + seq!['.'] + extension(name).unwrap(),
{
    lemma_last_dot(name);
    assert(name =~= stem(name) + seq!['.'] + extension(name).unwrap());
}

/// The index of the last `.` of `name`.
fn find_last_dot(name: &str) -> (at: Option<usize>)
    ensures
        match at {
            Some(i) => i == last_dot(name@),
            None => last_dot(name@) == -1,
        },
{
    let n = name.unicode_len();
    let mut it = name.chars();
    let mut at: Option<usize> = None;
    let mut i: usize = 0;
    while i < n
        invariant
            n == name@.len(),
            i <= n,
            it.remaining() == name@.subrange(i as int, n as int),
            it.obeys_prophetic_iter_laws(),
            match at {
                Some(k) => k == last_dot(name@.subrange(0, i as int)),
                None => last_dot(name@.subrange(0, i as int)) == -1,
            },
        decreases n - i,
    {
        let next = it.next();
        proof {
            assert(name@.subrange(0, i + 1).drop_last() =~= name@.subrange(0, i as int));
            assert(name@.subrange(i as int, n as int).drop_first() =~= name@.subrange(
                i + 1,
                n as int,
            ));
        }
        match next {
            Some(c) => {
                if c == '.' {
                    at = Some(i);
                }
            },
            None => {},
        }
        i = i + 1;
    }
    assert(name@.subrange(0, n as int) =~= name@);
    at
}

/// Splits `name` into its stem and its extension.
///
/// A name splits at its last `.`, unless that `.` is its first character
/// or the name is `..`; a name that does not split is its own stem.
pub fn split_name(name: &str) -> (parts: (String, Option<String>))
    ensures
        parts.0@ == stem(name@),
        parts.1.deep_view() == extension(name@),
{
    let n = name.unicode_len();
    proof {
        lemma_last_dot(name@);
    }
    match find_last_dot(name) {
        Some(i) => {
            let is_parent = n == 2 && name.get_char(0) == '.';
            if i == 0 || is_parent {
                assert(i != 0 ==> name@ =~= dot_dot());
                (name.to_owned(), None)
            } else {
                assert(name@ != dot_dot()) by {
                    assert(dot_dot().len() == 2 && dot_dot()[0] == '.');
                }
                let before = name.substring_char(0, i);
                let after = name.substring_char(i + 1, n);
                (before.to_owned(), Some(after.to_owned()))
            }
        },
        None => (name.to_owned(), None),
    }
}

/// The `n`-th name tried in place of `name`: `name` itself for 0, then
/// the stem, a `-`, the decimal numeral of `n` and, where `name` has an
/// extension, a `.` and that extension.
pub open spec fn sibling(name: Seq<char>, n: nat) -> Seq<char> {
    if n == 0 {
        name
    } else {
        stem(name) + seq!['-'] + decimal(n) + match extension(name) {
            Some(ext) => seq!['.'] + ext,
            None => Seq::<char>::empty(),
        }
    }
}

/// A numbered sibling is longer than the name it stands in for.
pub proof fn lemma_sibling_len(name: Seq<char>, n: nat)
    requires
        n > 0,
    ensures
        sibling(name, n).len() == name.len() + 1 + decimal(n).len(),
        sibling(name, n).len() > name.len() + 1,
{
    lemma_decimal_len(n);
    lemma_last_dot(name);
}

/// The names tried in place of one name are pairwise distinct.
pub proof fn lemma_sibling_injective(name: Seq<char>, i: nat, j: nat)
    requires
        sibling(name, i) == sibling(name, j),
    ensures
        i == j,
{
    if i == 0 && j == 0 {
    } else if i == 0 {
        lemma_sibling_len(name, j);
    } else if j == 0 {
        lemma_sibling_len(name, i);
    } else {
        lemma_sibling_len(name, i);
        lemma_sibling_len(name, j);
        let si = sibling(name, i);
        let sj = sibling(name, j);
        let at = stem(name).len() + 1;
        assert(decimal(i).len() == decimal(j).len());
        assert forall|k: int| 0 <= k < decimal(i).len() implies decimal(i)[k] == decimal(j)[k] by {
            assert(si[at + k] == decimal(i)[k]);
            assert(sj[at + k] == decimal(j)[k]);
        }
        assert(decimal(i) =~= decimal(j));
        lemma_decimal_injective(i, j);
    }
}

/// A numbered sibling of a name that splits has the same extension, and
/// for its stem the name's stem, a `-` and the number.
pub proof fn law_sibling_keeps_extension(name: Seq<char>, n: nat)
    requires
        splits(name),
        n > 0,
    ensures
        splits(sibling(name, n)),
        extension(sibling(name, n)) == extension(name),
        stem(sibling(name, n)) == stem(name) + seq!['-'] + decimal(n),
{
    lemma_last_dot(name);
    lemma_decimal_digits(n);
    lemma_decimal_len(n);
    let ext = extension(name).unwrap();
    let front = stem(name) + seq!['-'] + decimal(n);
    let whole = sibling(name, n);
    assert(whole =~= front + seq!['.'] + ext);
    let at = front.len() as int;
    assert forall|j: int| at < j < whole.len() implies whole[j] != '.' by {
        assert(whole[j] == ext[j - at - 1]);
        assert(ext[j - at - 1] == name[last_dot(name) + 1 + (j - at - 1)]);
    }
    lemma_last_dot_at(whole, at);
    assert(whole.len() > 2);
    assert(whole.subrange(0, at) =~= front);
    assert(whole.subrange(at + 1, whole.len() as int) =~= ext);
}

/// Builds the `n`-th name tried in place of `name`.
pub fn sibling_name(name: &str, n: u64) -> (s: String)
    ensures
        s@ == sibling(name@, n as nat),
{
    if n == 0 {
        return name.to_owned();
    }
    let (stem, ext) = split_name(name);
    let number = decimal_string(n);
    let mut s = stem;
    proof {
        reveal_strlit("-");
        reveal_strlit(".");
    }
    s.append("-");
    s.append(number.as_str());
    match ext {
        Some(e) => {
            s.append(".");
            s.append(e.as_str());
            assert(s@ =~= sibling(name@, n as nat));
        },
        None => {
            assert(s@ =~= sibling(name@, n as nat));
        },
    }
    s
}

/// The extension that marks an archive.
pub open spec fn archive_extension() -> Seq<char> {
    seq!['x', 'z']
}

/// The name of the archive made from the file `name`: the archive
/// extension appended to the file's own extension.
pub open spec fn archive_name(name: Seq<char>) -> Seq<char>
    recommends
        splits(name),
{
    stem(name) + seq!['.'] + (extension(name).unwrap() + seq!['.'] + archive_extension())
}

/// The archive's name is the file's whole name, a `.` and the archive
/// extension; it splits there, so its stem is the file's name.
pub proof fn lemma_archive_name(name: Seq<char>)
    requires
        splits(name),
    ensures
        archive_name(name) == name + seq!['.'] + archive_extension(),
        splits(archive_name(name)),
        stem(archive_name(name)) == name,
        extension(archive_name(name)) == Some(archive_extension()),
{
    lemma_split_joins(name);
    let a = name + seq!['.'] + archive_extension();
    assert(archive_name(name) =~= a);
    lemma_last_dot(name);
    assert(a.drop_last().drop_last() =~= name + seq!['.']);
    assert(last_dot(a) == name.len()) by {
        reveal_with_fuel(last_dot, 3);
    }
    assert(a.len() > 2);
    assert(a.subrange(0, name.len() as int) =~= name);
    assert(a.subrange(name.len() as int + 1, a.len() as int) =~= archive_extension());
}

/// Builds the name of the archive made from the file `name`.
pub fn archive_name_of(name: &str) -> (s: String)
    requires
        splits(name@),
    ensures
        s@ == archive_name(name@),
{
    let mut s = name.to_owned();
    proof {
        reveal_strlit(".xz");
        lemma_archive_name(name@);
        assert(".xz"@ =~= seq!['.'] + archive_extension());
    }
    s.append(".xz");
    assert(s@ =~= name@ + seq!['.'] + archive_extension());
    s
}

} // verus!
