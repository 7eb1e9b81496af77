//! The uniquifier: a name that no file of a directory bears yet.
//!
//! The directory is given as a snapshot, the names known to be taken in
//! it. The choice is a function of the snapshot; a name chosen is claimed
//! only when a file is made under it, so two choices made from one snapshot
//! may collide. A caller that can only ask whether one name is taken grows
//! the snapshot by every name found taken, and so tries the names in their
//! order.

use crate::name::{
    archive_extension, archive_name, extension, law_sibling_keeps_extension, lemma_archive_name,
    lemma_sibling_injective, sibling, sibling_name, splits,
};
use crate::path::FilePath;
use vstd::prelude::*;

verus! {

/// Whether `n` is the first index whose sibling of `name` is not taken.
pub open spec fn is_first_free(name: Seq<char>, taken: Seq<Seq<char>>, n: nat) -> bool {
    &&& !taken.contains(sibling(name, n))
    &&& forall|m: nat| m < n ==> taken.contains(#[trigger] sibling(name, m))
}

/// The first index whose sibling of `name` is not among `taken`.
pub open spec fn free_index(name: Seq<char>, taken: Seq<Seq<char>>) -> nat {
    choose|n: nat| is_first_free(name, taken, n)
}

/// The name chosen in place of `name` where the names `taken` exist: `name`
/// itself if it is free, else its first numbered sibling that is.
pub open spec fn unique(name: Seq<char>, taken: Seq<Seq<char>>) -> Seq<char> {
    sibling(name, free_index(name, taken))
}

/// Among the first siblings of a name, one more than there are taken
/// names, at least one is free.
proof fn lemma_some_sibling_is_free(name: Seq<char>, taken: Seq<Seq<char>>)
    ensures
        exists|n: nat| n <= taken.len() && !taken.contains(#[trigger] sibling(name, n)),
    decreases taken.len(),
{
    let top = taken.len();
    if taken.contains(sibling(name, top)) {
        let at = choose|i: int| 0 <= i < taken.len() && taken[i] == sibling(name, top);
        let rest = taken.remove(at);
        lemma_some_sibling_is_free(name, rest);
        let n = choose|n: nat| n <= rest.len() && !rest.contains(#[trigger] sibling(name, n));
        if taken.contains(sibling(name, n)) {
            let k = choose|k: int| 0 <= k < taken.len() && taken[k] == sibling(name, n);
            if k == at {
                lemma_sibling_injective(name, n, top);
            } else if k < at {
                assert(rest[k] == taken[k]);
            } else {
                assert(rest[k - 1] == taken[k]);
            }
        }
        assert(n <= taken.len() && !taken.contains(sibling(name, n)));
    } else {
        assert(top <= taken.len() && !taken.contains(sibling(name, top)));
    }
}

/// Below a free index lies a first free index.
proof fn lemma_first_free_below(name: Seq<char>, taken: Seq<Seq<char>>, n: nat)
    requires
        !taken.contains(sibling(name, n)),
    ensures
        exists|m: nat| m <= n && is_first_free(name, taken, m),
    decreases n,
{
    if forall|m: nat| m < n ==> taken.contains(#[trigger] sibling(name, m)) {
        assert(is_first_free(name, taken, n));
    } else {
        let m = choose|m: nat| m < n && !taken.contains(#[trigger] sibling(name, m));
        lemma_first_free_below(name, taken, m);
        let first = choose|first: nat| first <= m && is_first_free(name, taken, first);
        assert(first <= n && is_first_free(name, taken, first));
    }
}

/// There is one first free index, and it is `free_index`: it is at most
/// the number of taken names.
pub proof fn lemma_free_index(name: Seq<char>, taken: Seq<Seq<char>>)
    ensures
        is_first_free(name, taken, free_index(name, taken)),
        free_index(name, taken) <= taken.len(),
        forall|n: nat| is_first_free(name, taken, n) ==> n == free_index(name, taken),
{
    lemma_some_sibling_is_free(name, taken);
    let n = choose|n: nat| n <= taken.len() && !taken.contains(#[trigger] sibling(name, n));
    lemma_first_free_below(name, taken, n);
    let first = choose|first: nat| first <= n && is_first_free(name, taken, first);
    assert(is_first_free(name, taken, first));
    let chosen = free_index(name, taken);
    assert(is_first_free(name, taken, chosen));
    assert forall|k: nat| is_first_free(name, taken, k) implies k == chosen by {
        if k < chosen {
            assert(taken.contains(sibling(name, k)));
        } else if chosen < k {
            assert(taken.contains(sibling(name, chosen)));
        }
    }
}

/// Whether `name` is one of `names`.
pub fn is_taken(names: &Vec<String>, name: &String) -> (found: bool)
    ensures
        found == names.deep_view().contains(name@),
{
    let mut i: usize = 0;
    while i < names.len()
        invariant
            i <= names.len(),
            forall|k: int| 0 <= k < i ==> names.deep_view()[k] != name@,
        decreases names.len() - i,
    {
        assert(names.deep_view()[i as int] == names@[i as int]@);
        if names[i] == *name {
            assert(names.deep_view().contains(name@));
            return true;
        }
        i = i + 1;
    }
    false
}

/// Chooses a name in place of `name` that is not among `taken`: `name`
/// itself if it is free, else the first of `stem-1.ext`, `stem-2.ext` and
/// so on that is free.
pub fn unique_name(name: &str, taken: &Vec<String>) -> (chosen: String)
    ensures
        chosen@ == unique(name@, taken.deep_view()),
        !taken.deep_view().contains(chosen@),
        !taken.deep_view().contains(name@) ==> chosen@ == name@,
{
    let ghost snapshot = taken.deep_view();
    proof {
        lemma_free_index(name@, snapshot);
    }
    let mut n: usize = 0;
    loop
        invariant
            snapshot == taken.deep_view(),
            n <= taken.len(),
            is_first_free(name@, snapshot, free_index(name@, snapshot)),
            free_index(name@, snapshot) <= taken.len(),
            forall|k: nat| is_first_free(name@, snapshot, k) ==> k == free_index(name@, snapshot),
            forall|m: nat| m < n ==> snapshot.contains(#[trigger] sibling(name@, m)),
        decreases taken.len() - n,
    {
        let candidate = sibling_name(name, n as u64);
        if !is_taken(taken, &candidate) {
            assert(is_first_free(name@, snapshot, n as nat));
            assert(!snapshot.contains(name@) ==> is_first_free(name@, snapshot, 0));
            return candidate;
        }
        assert(n as nat != free_index(name@, snapshot));
        assert(n < free_index(name@, snapshot)) by {
            if free_index(name@, snapshot) < n {
                assert(snapshot.contains(sibling(name@, free_index(name@, snapshot))));
            }
        }
        n = n + 1;
    }
}

/// Chooses, for the file `path`, a path in the same directory whose name is
/// not among `taken`, the names that the directory holds.
pub fn unique_path(path: &FilePath, taken: &Vec<String>) -> (chosen: FilePath)
    ensures
        chosen@.dir == path@.dir,
        chosen@.name == unique(path@.name, taken.deep_view()),
        !taken.deep_view().contains(chosen@.name),
        !taken.deep_view().contains(path@.name) ==> chosen@ == path@,
{
    FilePath { dir: path.dir.clone(), name: unique_name(path.name.as_str(), taken) }
}

/// The chosen name is not taken.
pub proof fn law_unique_is_free(name: Seq<char>, taken: Seq<Seq<char>>)
    ensures
        !taken.contains(unique(name, taken)),
{
    lemma_free_index(name, taken);
}

/// A name that is not taken is chosen unchanged.
pub proof fn law_free_name_is_kept(name: Seq<char>, taken: Seq<Seq<char>>)
    requires
        !taken.contains(name),
    ensures
        unique(name, taken) == name,
{
    lemma_free_index(name, taken);
    assert(is_first_free(name, taken, 0));
}

/// In place of a taken name its first free numbered sibling is chosen:
/// every sibling with a smaller number is taken, and so is the name.
pub proof fn law_taken_name_is_numbered(name: Seq<char>, taken: Seq<Seq<char>>)
    requires
        taken.contains(name),
    ensures
        free_index(name, taken) >= 1,
        unique(name, taken) == sibling(name, free_index(name, taken)),
        forall|m: nat| m < free_index(name, taken) ==> taken.contains(#[trigger] sibling(name, m)),
{
    lemma_free_index(name, taken);
}

/// Once the chosen name is claimed, that is added to the snapshot, the
/// next choice for the same name is another one.
pub proof fn law_claimed_name_is_not_chosen_again(name: Seq<char>, taken: Seq<Seq<char>>)
    ensures
        unique(name, taken.push(unique(name, taken))) != unique(name, taken),
{
    let first = unique(name, taken);
    let claimed = taken.push(first);
    lemma_free_index(name, claimed);
    assert(claimed[taken.len() as int] == first);
    assert(claimed.contains(first));
}

/// The first `k` names tried in place of `name`, in their order.
pub open spec fn tried(name: Seq<char>, k: nat) -> Seq<Seq<char>> {
    Seq::new(k, |i: int| sibling(name, i as nat))
}

/// Once the first `k` names tried are known to be taken, the next name
/// chosen is the one numbered `k`.
pub proof fn law_next_try(name: Seq<char>, k: nat)
    ensures
        unique(name, tried(name, k)) == sibling(name, k),
        tried(name, k).push(sibling(name, k)) == tried(name, k + 1),
{
    let seen = tried(name, k);
    assert forall|m: nat| m < k implies seen.contains(#[trigger] sibling(name, m)) by {
        assert(seen[m as int] == sibling(name, m));
    }
    if seen.contains(sibling(name, k)) {
        let i = choose|i: int| 0 <= i < seen.len() && seen[i] == sibling(name, k);
        lemma_sibling_injective(name, i as nat, k);
    }
    assert(is_first_free(name, seen, k));
    lemma_free_index(name, seen);
    assert(seen.push(sibling(name, k)) =~= tried(name, k + 1));
}

/// Probing finds what a snapshot gives: where the directory holds the
/// names `taken` and the names tried are probed one after the other, the
/// first one found free is the one chosen from the snapshot.
pub proof fn law_probing_agrees_with_snapshot(name: Seq<char>, taken: Seq<Seq<char>>, k: nat)
    requires
        forall|m: nat| m < k ==> taken.contains(#[trigger] sibling(name, m)),
        !taken.contains(sibling(name, k)),
    ensures
        unique(name, taken) == unique(name, tried(name, k)),
{
    law_next_try(name, k);
    lemma_free_index(name, taken);
    assert(is_first_free(name, taken, k));
}

/// Whatever names are taken, the name chosen for the archive of a file
/// bears the archive extension.
pub proof fn law_archive_bears_its_extension(name: Seq<char>, taken: Seq<Seq<char>>)
    requires
        splits(name),
    ensures
        extension(unique(archive_name(name), taken)) == Some(archive_extension()),
{
    lemma_archive_name(name);
    let n = free_index(archive_name(name), taken);
    if n > 0 {
        law_sibling_keeps_extension(archive_name(name), n);
    }
}

} // verus!
