//! The answer to a file search: the files the access rules let through,
//! newest first, one path per line.
use crate::gate::{ignore_verdict, AccessGate};
use crate::text::{chars_of, join_lines};
use vstd::prelude::*;

verus! {

/// A file a search found, with its modification time (nanoseconds since the
/// Unix epoch).
#[derive(Debug)]
pub struct FoundFile {
    pub path: String,
    pub modified: u128,
}

/// The files of `fs` the rules do not exclude, in order.
pub open spec fn visible(root: Seq<char>, rules: Seq<Seq<char>>, fs: Seq<FoundFile>) -> Seq<FoundFile>
    decreases fs.len(),
{
    if fs.len() == 0 {
        fs
    } else if ignore_verdict(root, rules, fs.last().path@) {
        visible(root, rules, fs.drop_last())
    } else {
        visible(root, rules, fs.drop_last()).push(fs.last())
    }
}

/// How many leading files of `s` are at least as recent as `t`.
pub open spec fn place(s: Seq<FoundFile>, t: u128) -> int
    decreases s.len(),
{
    if s.len() == 0 || s[0].modified < t {
        0
    } else {
        1 + place(s.drop_first(), t)
    }
}

/// `fs` ordered newest first; files of equal time keep their order.
pub open spec fn newest_first(fs: Seq<FoundFile>) -> Seq<FoundFile>
    decreases fs.len(),
{
    if fs.len() == 0 {
        fs
    } else {
        let s = newest_first(fs.drop_last());
        s.insert(place(s, fs.last().modified), fs.last())
    }
}

/// The paths of `fs`, in order.
pub open spec fn paths_of(fs: Seq<FoundFile>) -> Seq<Seq<char>> {
    fs.map_values(|f: FoundFile| f.path@)
}

proof fn lemma_place(s: Seq<FoundFile>, t: u128, j: int)
    requires
        0 <= j <= s.len(),
        forall|k: int| 0 <= k < j ==> s[k].modified >= t,
        j == s.len() || s[j].modified < t,
    ensures
        place(s, t) == j,
    decreases j,
{
    if j > 0 {
        lemma_place(s.drop_first(), t, j - 1);
    }
}

/// The files `idx` points at in `fs`.
pub open spec fn picked(fs: Seq<FoundFile>, idx: Seq<usize>) -> Seq<FoundFile> {
    idx.map_values(|k: usize| fs[k as int])
}

/// The listing of a search: the visible files, newest first, one path per line.
pub fn file_listing(gate: &AccessGate, found: &Vec<FoundFile>) -> (r: String)
    ensures
        r@ == join_lines(paths_of(newest_first(visible(gate.root(), gate.rules(), found@)))),
{
    let ghost all = found@;
    let ghost root = gate.root();
    let ghost rules = gate.rules();
    let n = found.len();
    let mut idx: Vec<usize> = Vec::new();
    let mut i: usize = 0;
    while i < n
        invariant
            n == all.len(),
            all == found@,
            root == gate.root(),
            rules == gate.rules(),
            i <= n,
            forall|k: int| 0 <= k < idx@.len() ==> #[trigger] idx@[k] < i,
            picked(all, idx@) =~= newest_first(visible(root, rules, all.take(i as int))),
        decreases n - i,
    {
        let ghost t = all.take(i + 1);
        assert(t.drop_last() =~= all.take(i as int));
        assert(t.last() == all[i as int]);
        if !gate.is_ignored(found[i].path.as_str()) {
            let m = found[i].modified;
            let ghost s = picked(all, idx@);
            let mut j: usize = 0;
            while j < idx.len() && found[idx[j]].modified >= m
                invariant
                    n == all.len(),
                    all == found@,
                    j <= idx@.len(),
                    forall|k: int| 0 <= k < idx@.len() ==> #[trigger] idx@[k] < n,
                    s == picked(all, idx@),
                    forall|k: int| 0 <= k < j ==> s[k].modified >= m,
                decreases idx@.len() - j,
            {
                j = j + 1;
            }
            proof {
                lemma_place(s, m, j as int);
            }
            idx.insert(j, i);
            assert(picked(all, idx@) =~= s.insert(j as int, all[i as int]));
            proof {
                let v = visible(root, rules, all.take(i as int));
                assert(visible(root, rules, t) == v.push(all[i as int]));
                assert(v.push(all[i as int]).drop_last() =~= v);
                assert(newest_first(v.push(all[i as int])) == newest_first(v).insert(
                    place(newest_first(v), m),
                    all[i as int],
                ));
            }
        } else {
            assert(visible(root, rules, t) == visible(root, rules, all.take(i as int)));
        }
        i = i + 1;
    }
    assert(all.take(n as int) =~= all);
    let mut lines: Vec<Vec<char>> = Vec::new();
    let mut k: usize = 0;
    while k < idx.len()
        invariant
            all == found@,
            forall|q: int| 0 <= q < idx@.len() ==> #[trigger] idx@[q] < all.len(),
            k <= idx@.len(),
            crate::text::views(lines@) =~= paths_of(picked(all, idx@)).take(k as int),
        decreases idx@.len() - k,
    {
        let line = chars_of(found[idx[k]].path.as_str());
        let ghost before = lines@;
        lines.push(line);
        assert(crate::text::views(lines@) =~= crate::text::views(before).push(line@));
        assert(paths_of(picked(all, idx@)).take(k + 1) =~= paths_of(picked(all, idx@)).take(k as int).push(
            all[idx@[k as int] as int].path@,
        ));
        k = k + 1;
    }
    assert(paths_of(picked(all, idx@)).take(k as int) =~= paths_of(picked(all, idx@)));
    let joined = crate::text::join(lines.as_slice());
    crate::text::string_of(joined.as_slice())
}

} // verus!
