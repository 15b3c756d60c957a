use vstd::prelude::*;
use crate::message::{TopologyEntry, ids_view, topology_view};

verus! {

/// `s` with every occurrence of `x` removed, order kept.
pub open spec fn others(s: Seq<Seq<char>>, x: Seq<char>) -> Seq<Seq<char>>
    decreases s.len(),
{
    if s.len() == 0 {
        s
    } else {
        let rest = others(s.drop_last(), x);
        if s.last() == x {
            rest
        } else {
            rest.push(s.last())
        }
    }
}

/// The neighbours listed for `id`: those of the first entry keyed `id`, or
/// none if no entry is.
pub open spec fn neighbors(t: Seq<(Seq<char>, Seq<Seq<char>>)>, id: Seq<char>) -> Seq<Seq<char>>
    decreases t.len(),
{
    if t.len() == 0 {
        Seq::empty()
    } else if t[0].0 == id {
        t[0].1
    } else {
        neighbors(t.drop_first(), id)
    }
}

/// Every element of `others(s, x)` is an element of `s` other than `x`, and
/// every such element is kept.
pub proof fn lemma_others_contains(s: Seq<Seq<char>>, x: Seq<char>, y: Seq<char>)
    ensures
        others(s, x).contains(y) <==> (s.contains(y) && y != x),
    decreases s.len(),
{
    if s.len() > 0 {
        let init = s.drop_last();
        let rest = others(init, x);
        lemma_others_contains(init, x, y);
        if s.contains(y) && y != x && y != s.last() {
            let j = choose|j: int| 0 <= j < s.len() && s[j] == y;
            assert(init[j] == y);
        }
        if init.contains(y) {
            let j = choose|j: int| 0 <= j < init.len() && init[j] == y;
            assert(s[j] == y);
        }
        if rest.contains(y) {
            let j = choose|j: int| 0 <= j < rest.len() && rest[j] == y;
            assert(others(s, x)[j] == y);
        }
        if s.last() != x {
            assert(others(s, x)[rest.len() as int] == s.last());
            if others(s, x).contains(y) && y != s.last() {
                let j = choose|j: int| 0 <= j < others(s, x).len() && others(s, x)[j] == y;
                assert(rest[j] == y);
            }
        }
    }
}

/// Copies of the strings of `s` other than `x`, order kept.
pub fn others_of(s: &Vec<String>, x: &String) -> (r: Vec<String>)
    ensures
        ids_view(r@) == others(ids_view(s@), x@),
{
    let mut out: Vec<String> = Vec::new();
    let mut i: usize = 0;
    while i < s.len()
        invariant
            i <= s@.len(),
            ids_view(out@) == others(ids_view(s@).subrange(0, i as int), x@),
        decreases s@.len() - i,
    {
        let ghost prefix = ids_view(s@).subrange(0, i + 1);
        assert(prefix.drop_last() == ids_view(s@).subrange(0, i as int));
        assert(prefix.last() == s@[i as int]@);
        if s[i] != *x {
            let ghost before = out@;
            out.push(s[i].clone());
            assert(ids_view(out@) == ids_view(before).push(s@[i as int]@));
        }
        i = i + 1;
    }
    assert(ids_view(s@).subrange(0, s@.len() as int) == ids_view(s@));
    out
}

/// The network layout: each listed node with its direct neighbours, replaced
/// wholesale by each update.
pub struct Topology {
    entries: Vec<TopologyEntry>,
}

impl View for Topology {
    type V = Seq<(Seq<char>, Seq<Seq<char>>)>;

    closed spec fn view(&self) -> Seq<(Seq<char>, Seq<Seq<char>>)> {
        topology_view(self.entries@)
    }
}

impl Topology {
    pub fn new() -> (r: Topology)
        ensures
            r@ == Seq::<(Seq<char>, Seq<Seq<char>>)>::empty(),
    {
        Topology { entries: Vec::new() }
    }

    /// Installs `entries`, discarding whatever was there before.
    pub fn replace(&mut self, entries: Vec<TopologyEntry>)
        ensures
            final(self)@ == topology_view(entries@),
    {
        self.entries = entries;
    }

    /// The neighbours listed for `id`, in stored order; none if `id` has no
    /// entry.
    pub fn neighbors_of(&self, id: &String) -> (r: Vec<String>)
        ensures
            ids_view(r@) == neighbors(self@, id@),
    {
        let mut i: usize = 0;
        assert(self@.subrange(0, self@.len() as int) == self@);
        while i < self.entries.len()
            invariant
                i <= self.entries@.len(),
                neighbors(self@, id@) == neighbors(self@.subrange(i as int, self@.len() as int), id@),
            decreases self.entries@.len() - i,
        {
            let ghost rest = self@.subrange(i as int, self@.len() as int);
            assert(rest.drop_first() == self@.subrange(i + 1, self@.len() as int));
            if self.entries[i].0 == *id {
                let list = &self.entries[i].1;
                let mut out: Vec<String> = Vec::new();
                let mut j: usize = 0;
                while j < list.len()
                    invariant
                        j <= list@.len(),
                        ids_view(out@) == ids_view(list@).subrange(0, j as int),
                    decreases list@.len() - j,
                {
                    let ghost before = out@;
                    out.push(list[j].clone());
                    assert(ids_view(out@) == ids_view(before).push(list@[j as int]@));
                    assert(ids_view(out@) =~= ids_view(list@).subrange(0, j + 1));
                    j = j + 1;
                }
                assert(ids_view(list@).subrange(0, list@.len() as int) == ids_view(list@));
                return out;
            }
            i = i + 1;
        }
        Vec::new()
    }

    /// The neighbours of `id` other than `sender`, in stored order: where a
    /// value first seen at `id` is flooded to.
    pub fn flood_targets(&self, id: &String, sender: &String) -> (r: Vec<String>)
        ensures
            ids_view(r@) == others(neighbors(self@, id@), sender@),
    {
        others_of(&self.neighbors_of(id), sender)
    }
}

} // verus!
