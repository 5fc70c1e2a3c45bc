//! A 2D bit mask abstraction over selection containers, and the position
//! set used to carry motion results to verb callbacks.

use vstd::prelude::*;

verus! {

/// A mutable 2D bit mask: selection masks of any backing store are driven
/// through this trait.
pub trait BitMap2D {
    /// The set of coordinates whose bit is on.
    spec fn bits(&self) -> Set<(int, int)>;

    /// Turn the bit at `(x, y)` on.
    fn set_bit(&mut self, x: usize, y: usize)
        ensures
            final(self).bits() == old(self).bits().insert((x as int, y as int)),
    ;

    /// Turn the bit at `(x, y)` off.
    fn clear_bit(&mut self, x: usize, y: usize)
        ensures
            final(self).bits() == old(self).bits().remove((x as int, y as int)),
    ;

    /// Whether the bit at `(x, y)` is on.
    fn get_bit(&self, x: usize, y: usize) -> (b: bool)
        ensures
            b == self.bits().contains((x as int, y as int)),
    ;
}

/// A duplicate-free set of pixel positions, kept as a vector of pairs.
pub struct PosSet {
    items: Vec<(usize, usize)>,
}

impl PosSet {
    /// The positions held, in insertion order.
    pub closed spec fn seq(&self) -> Seq<(usize, usize)> {
        self.items@
    }

    /// The positions held, as a set of coordinates.
    pub open spec fn view_set(&self) -> Set<(int, int)> {
        Set::new(
            |p: (int, int)|
                exists|i: int|
                    0 <= i < self.seq().len() && self.seq()[i].0 == p.0 && self.seq()[i].1 == p.1,
        )
    }

    /// No position occurs twice.
    pub open spec fn wf(&self) -> bool {
        forall|i: int, j: int|
            0 <= i < j < self.seq().len() ==> self.seq()[i] != self.seq()[j]
    }

    /// An empty position set.
    pub fn new() -> (s: PosSet)
        ensures
            s.seq() == Seq::<(usize, usize)>::empty(),
            s.view_set() == Set::<(int, int)>::empty(),
            s.wf(),
    {
        let s = PosSet { items: Vec::new() };
        proof {
            assert(s.view_set() =~= Set::<(int, int)>::empty());
        }
        s
    }

    /// How many positions are held.
    pub fn len(&self) -> (n: usize)
        ensures
            n == self.seq().len(),
    {
        self.items.len()
    }

    /// The position at index `i`, in insertion order.
    pub fn get(&self, i: usize) -> (p: (usize, usize))
        requires
            i < self.seq().len(),
        ensures
            p == self.seq()[i as int],
    {
        self.items[i]
    }

    /// Whether `(x, y)` is held.
    pub fn contains(&self, x: usize, y: usize) -> (b: bool)
        ensures
            b == self.view_set().contains((x as int, y as int)),
    {
        let n = self.items.len();
        let mut i: usize = 0;
        while i < n
            invariant
                i <= n,
                n == self.seq().len(),
                forall|j: int| 0 <= j < i ==> !(self.seq()[j].0 == x && self.seq()[j].1 == y),
            decreases n - i,
        {
            let p = self.items[i];
            if p.0 == x && p.1 == y {
                return true;
            }
            i = i + 1;
        }
        false
    }

    /// Add `(x, y)` unless it is already held.
    pub fn insert(&mut self, x: usize, y: usize)
        ensures
            final(self).view_set() == old(self).view_set().insert((x as int, y as int)),
            old(self).view_set().contains((x as int, y as int)) ==> final(self).seq() == old(
                self,
            ).seq(),
            !old(self).view_set().contains((x as int, y as int)) ==> final(self).seq() == old(
                self,
            ).seq().push((x, y)),
            old(self).wf() ==> final(self).wf(),
    {
        if self.contains(x, y) {
            proof {
                assert(self.view_set() =~= self.view_set().insert((x as int, y as int)));
            }
        } else {
            self.items.push((x, y));
            proof {
                let old_seq = old(self).seq();
                let new_seq = self.seq();
                assert forall|p: (int, int)| #[trigger] self.view_set().contains(p) implies old(
                    self,
                ).view_set().insert((x as int, y as int)).contains(p) by {
                    let i = choose|i: int|
                        0 <= i < new_seq.len() && new_seq[i].0 == p.0 && new_seq[i].1 == p.1;
                    if i < old_seq.len() {
                        assert(old(self).view_set().contains(p));
                    }
                }
                assert forall|p: (int, int)|
                    old(self).view_set().insert((x as int, y as int)).contains(
                        p,
                    ) implies #[trigger] self.view_set().contains(p) by {
                    if p == ((x as int, y as int)) {
                        assert(new_seq[new_seq.len() - 1].0 == p.0 && new_seq[new_seq.len()
                            - 1].1 == p.1);
                    } else {
                        let i = choose|i: int|
                            0 <= i < old_seq.len() && old_seq[i].0 == p.0 && old_seq[i].1 == p.1;
                        assert(new_seq[i].0 == p.0 && new_seq[i].1 == p.1);
                    }
                }
                assert(self.view_set() =~= old(self).view_set().insert((x as int, y as int)));
            }
        }
    }

    /// Remove every position.
    pub fn clear(&mut self)
        ensures
            final(self).seq() == Seq::<(usize, usize)>::empty(),
            final(self).view_set() == Set::<(int, int)>::empty(),
            final(self).wf(),
    {
        self.items.clear();
        proof {
            assert(self.view_set() =~= Set::<(int, int)>::empty());
        }
    }

    /// Remove `(x, y)` if it is held.
    pub fn remove(&mut self, x: usize, y: usize)
        ensures
            final(self).view_set() == old(self).view_set().remove((x as int, y as int)),
    {
        let n = self.items.len();
        let mut out: Vec<(usize, usize)> = Vec::new();
        let mut i: usize = 0;
        while i < n
            invariant
                i <= n,
                n == self.seq().len(),
                forall|j: int|
                    0 <= j < out@.len() ==> !(out@[j].0 == x && out@[j].1 == y),
                forall|p: (int, int)|
                    #![auto]
                    (exists|j: int| 0 <= j < out@.len() && out@[j].0 == p.0 && out@[j].1 == p.1)
                        <==> ((exists|j: int|
                        0 <= j < i && self.seq()[j].0 == p.0 && self.seq()[j].1 == p.1) && !(p.0
                        == x && p.1 == y)),
            decreases n - i,
        {
            let ghost prev = out@;
            let p = self.items[i];
            if !(p.0 == x && p.1 == y) {
                out.push(p);
            }
            proof {
                assert forall|q: (int, int)|
                    (exists|j: int|
                        0 <= j < out@.len() && out@[j].0 == q.0 && out@[j].1
                            == q.1) implies ((exists|j: int|
                    0 <= j < i + 1 && self.seq()[j].0 == q.0 && self.seq()[j].1 == q.1) && !(q.0
                    == x && q.1 == y)) by {
                    let j = choose|j: int|
                        0 <= j < out@.len() && out@[j].0 == q.0 && out@[j].1 == q.1;
                    if j < prev.len() {
                        assert(prev[j].0 == q.0 && prev[j].1 == q.1);
                    } else {
                        assert(self.seq()[i as int].0 == q.0 && self.seq()[i as int].1 == q.1);
                    }
                }
                assert forall|q: (int, int)|
                    ((exists|j: int|
                        0 <= j < i + 1 && self.seq()[j].0 == q.0 && self.seq()[j].1 == q.1) && !(
                    q.0 == x && q.1 == y)) implies (exists|j: int|
                    0 <= j < out@.len() && out@[j].0 == q.0 && out@[j].1 == q.1) by {
                    let j = choose|j: int|
                        0 <= j < i + 1 && self.seq()[j].0 == q.0 && self.seq()[j].1 == q.1;
                    if j < i {
                        let k = choose|k: int|
                            0 <= k < prev.len() && prev[k].0 == q.0 && prev[k].1 == q.1;
                        assert(out@[k].0 == q.0 && out@[k].1 == q.1);
                    } else {
                        assert(q.0 == p.0 as int && q.1 == p.1 as int);
                        assert(out@[out@.len() - 1].0 == q.0 && out@[out@.len() - 1].1 == q.1);
                    }
                }
            }
            i = i + 1;
        }
        self.items = out;
        proof {
            assert(self.view_set() =~= old(self).view_set().remove((x as int, y as int)));
        }
    }
}

/// The coordinate set a sequence of positions covers.
spec fn seq_pos_set(q: Seq<(usize, usize)>) -> Set<(int, int)> {
    Set::new(
        |p: (int, int)|
            exists|i: int| 0 <= i < q.len() && q[i].0 == p.0 && q[i].1 == p.1,
    )
}

/// A duplicate-free sequence of positions covers exactly as many
/// coordinates as it has entries.
proof fn lemma_seq_pos_set_len(q: Seq<(usize, usize)>)
    requires
        forall|i: int, j: int| 0 <= i < j < q.len() ==> q[i] != q[j],
    ensures
        seq_pos_set(q).finite(),
        seq_pos_set(q).len() == q.len(),
    decreases q.len(),
{
    if q.len() == 0 {
        assert(seq_pos_set(q) =~= Set::<(int, int)>::empty());
    } else {
        let head = q.drop_last();
        lemma_seq_pos_set_len(head);
        let last = q.last();
        let lastp = (last.0 as int, last.1 as int);
        assert forall|p: (int, int)| #[trigger] seq_pos_set(q).contains(p) implies seq_pos_set(
            head,
        ).insert(lastp).contains(p) by {
            let i = choose|i: int| 0 <= i < q.len() && q[i].0 == p.0 && q[i].1 == p.1;
            if i < head.len() {
                assert(head[i].0 == p.0 && head[i].1 == p.1);
            }
        }
        assert forall|p: (int, int)| seq_pos_set(head).insert(lastp).contains(
            p,
        ) implies #[trigger] seq_pos_set(q).contains(p) by {
            if p == lastp {
                assert(q[q.len() - 1].0 == p.0 && q[q.len() - 1].1 == p.1);
            } else {
                let i = choose|i: int| 0 <= i < head.len() && head[i].0 == p.0 && head[i].1 == p.1;
                assert(q[i].0 == p.0 && q[i].1 == p.1);
            }
        }
        assert(seq_pos_set(q) =~= seq_pos_set(head).insert(lastp));
        assert(!seq_pos_set(head).contains(lastp)) by {
            if seq_pos_set(head).contains(lastp) {
                let i = choose|i: int|
                    0 <= i < head.len() && head[i].0 == lastp.0 && head[i].1 == lastp.1;
                assert(q[i] == q[q.len() - 1]);
            }
        }
    }
}

impl PosSet {
    /// A duplicate-free position set holds exactly as many positions as
    /// its coordinate set has members: what a verb receives from repeated
    /// object motions is counted without duplicates.
    pub proof fn lemma_len_is_cardinality(&self)
        requires
            self.wf(),
        ensures
            self.view_set().finite(),
            self.view_set().len() == self.seq().len(),
    {
        lemma_seq_pos_set_len(self.seq());
        assert(self.view_set() =~= seq_pos_set(self.seq()));
    }
}

impl BitMap2D for PosSet {
    open spec fn bits(&self) -> Set<(int, int)> {
        self.view_set()
    }

    fn set_bit(&mut self, x: usize, y: usize) {
        self.insert(x, y);
    }

    fn clear_bit(&mut self, x: usize, y: usize) {
        self.remove(x, y);
    }

    fn get_bit(&self, x: usize, y: usize) -> (b: bool) {
        self.contains(x, y)
    }
}

} // verus!
