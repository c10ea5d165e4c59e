//! Per-path undo history: for each path, the stack of its earlier contents.
use vstd::prelude::*;

verus! {

/// One saved content of one path.
struct HistoryRecord {
    path: String,
    content: String,
}

/// The saved contents of `p` among `rs`, oldest first.
spec fn stack_in(rs: Seq<HistoryRecord>, p: Seq<char>) -> Seq<Seq<char>>
    decreases rs.len(),
{
    if rs.len() == 0 {
        Seq::<Seq<char>>::empty()
    } else {
        let s = stack_in(rs.drop_last(), p);
        if rs.last().path@ == p {
            s.push(rs.last().content@)
        } else {
            s
        }
    }
}

/// Removing the last record of `p` pops `p`'s stack and leaves the others.
proof fn lemma_remove_last_of(rs: Seq<HistoryRecord>, j: int, p: Seq<char>, q: Seq<char>)
    requires
        0 <= j < rs.len(),
        rs[j].path@ == p,
        forall|k: int| j < k < rs.len() ==> rs[k].path@ != p,
    ensures
        stack_in(rs, p).len() > 0,
        stack_in(rs, p).last() == rs[j].content@,
        stack_in(rs.remove(j), q) == if q == p {
            stack_in(rs, q).drop_last()
        } else {
            stack_in(rs, q)
        },
    decreases rs.len(),
{
    if j == rs.len() - 1 {
        assert(rs.remove(j) =~= rs.drop_last());
    } else {
        let d = rs.drop_last();
        lemma_remove_last_of(d, j, p, q);
        lemma_remove_last_of(d, j, p, p);
        assert(rs.remove(j) =~= d.remove(j).push(rs.last()));
        assert(rs.remove(j).drop_last() =~= d.remove(j));
    }
}

/// No record of `p`, nothing saved for `p`.
proof fn lemma_absent(rs: Seq<HistoryRecord>, p: Seq<char>)
    requires
        forall|k: int| 0 <= k < rs.len() ==> rs[k].path@ != p,
    ensures
        stack_in(rs, p).len() == 0,
    decreases rs.len(),
{
    if rs.len() > 0 {
        lemma_absent(rs.drop_last(), p);
    }
}

/// The undo history of all paths.
pub struct EditHistory {
    records: Vec<HistoryRecord>,
}

impl EditHistory {
    /// The saved contents of `p`, oldest first.
    pub closed spec fn stack(&self, p: Seq<char>) -> Seq<Seq<char>> {
        stack_in(self.records@, p)
    }

    /// A history with nothing saved.
    pub fn new() -> (r: EditHistory)
        ensures
            forall|p: Seq<char>| #[trigger] r.stack(p) == Seq::<Seq<char>>::empty(),
    {
        EditHistory { records: Vec::new() }
    }

    /// Saves `content` on top of `path`'s stack.
    pub fn push(&mut self, path: &str, content: &str)
        ensures
            forall|q: Seq<char>| #[trigger] final(self).stack(q) == if q == path@ {
                old(self).stack(q).push(content@)
            } else {
                old(self).stack(q)
            },
    {
        let ghost before = self.records@;
        self.records.push(HistoryRecord { path: String::from_str(path), content: String::from_str(content) });
        assert(self.records@.drop_last() =~= before);
    }

    /// Takes the most recent saved content of `path`, if there is one.
    pub fn pop(&mut self, path: &str) -> (r: Option<String>)
        ensures
            old(self).stack(path@).len() == 0 ==> r is None && forall|q: Seq<char>|
                #[trigger] final(self).stack(q) == old(self).stack(q),
            old(self).stack(path@).len() > 0 ==> (r matches Some(c) && c@ == old(
                self,
            ).stack(path@).last()),
            old(self).stack(path@).len() > 0 ==> forall|q: Seq<char>| #[trigger]
                final(self).stack(q) == if q == path@ {
                    old(self).stack(q).drop_last()
                } else {
                    old(self).stack(q)
                },
    {
        let key = String::from_str(path);
        let mut j: usize = self.records.len();
        while j > 0
            invariant
                j <= self.records@.len(),
                self.records@ == old(self).records@,
                key@ == path@,
                forall|k: int| j <= k < self.records@.len() ==> self.records@[k].path@ != path@,
            decreases j,
        {
            if self.records[j - 1].path == key {
                let ghost rs = self.records@;
                let rec = self.records.remove(j - 1);
                proof {
                    assert(self.records@ == rs.remove(j - 1));
                    lemma_remove_last_of(rs, j - 1, path@, path@);
                    assert forall|q: Seq<char>| #[trigger] stack_in(self.records@, q) == if q == path@ {
                        stack_in(rs, q).drop_last()
                    } else {
                        stack_in(rs, q)
                    } by {
                        lemma_remove_last_of(rs, j - 1, path@, q);
                    }
                }
                return Some(rec.content);
            }
            j = j - 1;
        }
        proof {
            lemma_absent(self.records@, path@);
        }
        None
    }
}

} // verus!
