//! The sorted-sequence differ: a single merge-join pass over two ordered sets
//! of records that tags what only the left holds and what only the right holds.

use crate::artifact::{Mod, ModView, rank, views, ascending, contains_id};
use vstd::prelude::*;

verus! {

/// One element of a diff: `Left` is held by the left input only (to remove),
/// `Right` by the right input only (to add).
pub enum Side<I> {
    Left(I),
    Right(I),
}

/// The view of a tagged record.
pub open spec fn side_view(s: Side<Mod>) -> Side<ModView> {
    match s {
        Side::Left(m) => Side::Left(m@),
        Side::Right(m) => Side::Right(m@),
    }
}

/// The merge-join diff of `l` against `r`, in the order the pass emits it.
pub open spec fn diff_spec(l: Seq<ModView>, r: Seq<ModView>) -> Seq<Side<ModView>>
    decreases l.len() + r.len(),
{
    if l.len() == 0 && r.len() == 0 {
        Seq::empty()
    } else if l.len() == 0 {
        seq![Side::Right(r[0])] + diff_spec(l, r.drop_first())
    } else if r.len() == 0 {
        seq![Side::Left(l[0])] + diff_spec(l.drop_first(), r)
    } else if rank(l[0]) == rank(r[0]) {
        diff_spec(l.drop_first(), r.drop_first())
    } else if rank(l[0]) < rank(r[0]) {
        seq![Side::Left(l[0])] + diff_spec(l.drop_first(), r)
    } else {
        seq![Side::Right(r[0])] + diff_spec(l, r.drop_first())
    }
}

/// The records tagged `Right`, in order.
pub open spec fn added(d: Seq<Side<ModView>>) -> Seq<ModView>
    decreases d.len(),
{
    if d.len() == 0 {
        Seq::empty()
    } else {
        match d[0] {
            Side::Right(m) => seq![m] + added(d.drop_first()),
            Side::Left(_) => added(d.drop_first()),
        }
    }
}

/// The records tagged `Left`, in order.
pub open spec fn removed(d: Seq<Side<ModView>>) -> Seq<ModView>
    decreases d.len(),
{
    if d.len() == 0 {
        Seq::empty()
    } else {
        match d[0] {
            Side::Left(m) => seq![m] + removed(d.drop_first()),
            Side::Right(_) => removed(d.drop_first()),
        }
    }
}

/// The records of `b` whose identity `a` does not hold, in the order of `b`.
pub open spec fn minus(b: Seq<ModView>, a: Seq<ModView>) -> Seq<ModView>
    decreases b.len(),
{
    if b.len() == 0 {
        Seq::empty()
    } else if contains_id(a, rank(b[0])) {
        minus(b.drop_first(), a)
    } else {
        seq![b[0]] + minus(b.drop_first(), a)
    }
}

/// Dropping the first record of `a` leaves `minus(b, a)` alone when no record
/// of `b` shares its identity.
proof fn lemma_minus_drop_other(b: Seq<ModView>, a: Seq<ModView>)
    requires
        a.len() > 0,
        forall|j: int| 0 <= j < b.len() ==> rank(#[trigger] b[j]) != rank(a[0]),
    ensures
        minus(b, a) == minus(b, a.drop_first()),
    decreases b.len(),
{
    if b.len() > 0 {
        let k = rank(b[0]);
        assert(contains_id(a, k) == contains_id(a.drop_first(), k)) by {
            if contains_id(a, k) {
                let i = choose|i: int| 0 <= i < a.len() && rank(#[trigger] a[i]) == k;
                assert(i != 0);
                assert(a.drop_first()[i - 1] == a[i]);
            }
            if contains_id(a.drop_first(), k) {
                let i = choose|i: int| 0 <= i < a.drop_first().len() && rank(#[trigger] a.drop_first()[i]) == k;
                assert(a[i + 1] == a.drop_first()[i]);
            }
        }
        assert forall|j: int| 0 <= j < b.drop_first().len() implies rank(#[trigger] b.drop_first()[j]) != rank(a[0]) by {
            assert(b.drop_first()[j] == b[j + 1]);
        }
        lemma_minus_drop_other(b.drop_first(), a);
    }
}

/// Every record of `minus(b, a)` is a record of `b` whose identity `a` lacks.
pub proof fn lemma_minus_members(b: Seq<ModView>, a: Seq<ModView>)
    ensures
        forall|i: int| 0 <= i < minus(b, a).len() ==> b.contains(#[trigger] minus(b, a)[i]) && !contains_id(a, rank(minus(b, a)[i])),
        minus(b, a).len() <= b.len(),
    decreases b.len(),
{
    if b.len() > 0 {
        lemma_minus_members(b.drop_first(), a);
        let m = minus(b, a);
        let t = minus(b.drop_first(), a);
        assert forall|i: int| 0 <= i < m.len() implies b.contains(#[trigger] m[i]) && !contains_id(a, rank(m[i])) by {
            if contains_id(a, rank(b[0])) {
                assert(b.drop_first().contains(t[i]));
                let j = choose|j: int| 0 <= j < b.drop_first().len() && b.drop_first()[j] == t[i];
                assert(b[j + 1] == t[i]);
            } else if i == 0 {
                assert(b[0] == m[0]);
            } else {
                assert(m[i] == t[i - 1]);
                assert(b.drop_first().contains(t[i - 1]));
                let j = choose|j: int| 0 <= j < b.drop_first().len() && b.drop_first()[j] == t[i - 1];
                assert(b[j + 1] == t[i - 1]);
            }
        }
    }
}

/// The records of an ordered set that another lacks stay ordered.
pub proof fn lemma_minus_ascending(b: Seq<ModView>, a: Seq<ModView>)
    requires
        ascending(b),
    ensures
        ascending(minus(b, a)),
    decreases b.len(),
{
    if b.len() > 0 {
        let t = minus(b.drop_first(), a);
        assert(ascending(b.drop_first())) by {
            assert forall|i: int, j: int| 0 <= i < j < b.drop_first().len() implies rank(b.drop_first()[i]) < rank(b.drop_first()[j]) by {
                assert(b.drop_first()[i] == b[i + 1] && b.drop_first()[j] == b[j + 1]);
            }
        }
        lemma_minus_ascending(b.drop_first(), a);
        lemma_minus_members(b.drop_first(), a);
        if !contains_id(a, rank(b[0])) {
            let m = minus(b, a);
            assert forall|i: int, j: int| 0 <= i < j < m.len() implies rank(m[i]) < rank(m[j]) by {
                assert(m[j] == t[j - 1]);
                assert(b.drop_first().contains(t[j - 1]));
                let q = choose|q: int| 0 <= q < b.drop_first().len() && b.drop_first()[q] == t[j - 1];
                assert(b[q + 1] == t[j - 1]);
                if i > 0 {
                    assert(m[i] == t[i - 1]);
                }
            }
        }
    }
}

/// A record of `b` whose identity `a` lacks is kept by `minus(b, a)`.
pub proof fn lemma_minus_keeps(b: Seq<ModView>, a: Seq<ModView>, x: ModView)
    requires
        b.contains(x),
        !contains_id(a, rank(x)),
    ensures
        minus(b, a).contains(x),
    decreases b.len(),
{
    if b[0] == x {
        assert(minus(b, a)[0] == x);
    } else {
        let j = choose|j: int| 0 <= j < b.len() && b[j] == x;
        assert(b.drop_first()[j - 1] == x);
        lemma_minus_keeps(b.drop_first(), a, x);
        let t = minus(b.drop_first(), a);
        let k = choose|k: int| 0 <= k < t.len() && t[k] == x;
        if !contains_id(a, rank(b[0])) {
            assert(minus(b, a)[k + 1] == x);
        }
    }
}

/// Diffing a sequence of records against itself tags nothing.
pub proof fn lemma_diff_self_empty(a: Seq<ModView>)
    ensures
        diff_spec(a, a) == Seq::<Side<ModView>>::empty(),
    decreases a.len(),
{
    if a.len() > 0 {
        lemma_diff_self_empty(a.drop_first());
    }
}

proof fn lemma_tail_ascending(a: Seq<ModView>)
    requires
        ascending(a),
        a.len() > 0,
    ensures
        ascending(a.drop_first()),
        forall|j: int| 0 <= j < a.drop_first().len() ==> rank(a[0]) < rank(#[trigger] a.drop_first()[j]),
{
    assert forall|i: int, j: int| 0 <= i < j < a.drop_first().len() implies rank(a.drop_first()[i]) < rank(a.drop_first()[j]) by {
        assert(a.drop_first()[i] == a[i + 1] && a.drop_first()[j] == a[j + 1]);
    }
    assert forall|j: int| 0 <= j < a.drop_first().len() implies rank(a[0]) < rank(#[trigger] a.drop_first()[j]) by {
        assert(a.drop_first()[j] == a[j + 1]);
    }
}

/// Of two ordered sets `a` and `b`, the diff adds exactly the records of `b`
/// whose identity `a` lacks and removes exactly the records of `a` whose
/// identity `b` lacks, each in ascending order, and no identity is both added
/// and removed.
pub proof fn lemma_diff_exact(a: Seq<ModView>, b: Seq<ModView>)
    requires
        ascending(a),
        ascending(b),
    ensures
        added(diff_spec(a, b)) == minus(b, a),
        removed(diff_spec(a, b)) == minus(a, b),
        ascending(added(diff_spec(a, b))),
        ascending(removed(diff_spec(a, b))),
        forall|i: int, j: int|
            0 <= i < added(diff_spec(a, b)).len() && 0 <= j < removed(diff_spec(a, b)).len()
                ==> rank(#[trigger] added(diff_spec(a, b))[i]) != rank(#[trigger] removed(diff_spec(a, b))[j]),
    decreases a.len() + b.len(),
{
    let d = diff_spec(a, b);
    if a.len() == 0 && b.len() == 0 {
    } else if a.len() == 0 {
        lemma_tail_ascending(b);
        lemma_diff_exact(a, b.drop_first());
        assert(d.drop_first() =~= diff_spec(a, b.drop_first()));
        assert(added(d) == seq![b[0]] + added(diff_spec(a, b.drop_first())));
        assert(!contains_id(a, rank(b[0])));
    } else if b.len() == 0 {
        lemma_tail_ascending(a);
        lemma_diff_exact(a.drop_first(), b);
        assert(d.drop_first() =~= diff_spec(a.drop_first(), b));
        assert(removed(d) == seq![a[0]] + removed(diff_spec(a.drop_first(), b)));
        assert(!contains_id(b, rank(a[0])));
    } else {
        lemma_tail_ascending(a);
        lemma_tail_ascending(b);
        if rank(a[0]) == rank(b[0]) {
            lemma_diff_exact(a.drop_first(), b.drop_first());
            assert(contains_id(a, rank(b[0])));
            assert(contains_id(b, rank(a[0])));
            lemma_minus_drop_other(b.drop_first(), a);
            lemma_minus_drop_other(a.drop_first(), b);
        } else if rank(a[0]) < rank(b[0]) {
            lemma_diff_exact(a.drop_first(), b);
            assert(d.drop_first() =~= diff_spec(a.drop_first(), b));
            assert(removed(d) == seq![a[0]] + removed(diff_spec(a.drop_first(), b)));
            assert forall|j: int| 0 <= j < b.len() implies rank(#[trigger] b[j]) != rank(a[0]) by {
                if j > 0 {
                    assert(b.drop_first()[j - 1] == b[j]);
                }
            }
            lemma_minus_drop_other(b, a);
            assert(!contains_id(b, rank(a[0])));
        } else {
            lemma_diff_exact(a, b.drop_first());
            assert(d.drop_first() =~= diff_spec(a, b.drop_first()));
            assert(added(d) == seq![b[0]] + added(diff_spec(a, b.drop_first())));
            assert forall|j: int| 0 <= j < a.len() implies rank(#[trigger] a[j]) != rank(b[0]) by {
                if j > 0 {
                    assert(a.drop_first()[j - 1] == a[j]);
                }
            }
            lemma_minus_drop_other(a, b);
            assert(!contains_id(a, rank(b[0])));
        }
    }
    lemma_minus_ascending(b, a);
    lemma_minus_ascending(a, b);
    lemma_minus_members(b, a);
    lemma_minus_members(a, b);
    assert forall|i: int, j: int|
        0 <= i < added(d).len() && 0 <= j < removed(d).len()
            implies rank(#[trigger] added(d)[i]) != rank(#[trigger] removed(d)[j]) by {
        let y = removed(d)[j];
        assert(a.contains(y));
        let q = choose|q: int| 0 <= q < a.len() && a[q] == y;
        assert(rank(a[q]) == rank(y));
        assert(contains_id(a, rank(y)));
    }
}

/// A lazy merge-join over two ordered sequences of records.
pub struct Comparer {
    left: Vec<Mod>,
    right: Vec<Mod>,
    /// Position of the current left element.
    li: usize,
    /// Position of the current right element.
    ri: usize,
}

impl Comparer {
    /// Both cursors stand within their inputs.
    pub closed spec fn wf(&self) -> bool {
        self.li <= self.left@.len() && self.ri <= self.right@.len()
    }

    /// What the pass has yet to emit.
    pub closed spec fn remaining(&self) -> Seq<Side<ModView>> {
        diff_spec(views(self.left@).skip(self.li as int), views(self.right@).skip(self.ri as int))
    }

    /// A pass over `left` and `right` that has emitted nothing yet.
    pub fn new(left: Vec<Mod>, right: Vec<Mod>) -> (c: Comparer)
        ensures
            c.wf(),
            c.remaining() == diff_spec(views(left@), views(right@)),
    {
        let c = Comparer { left, right, li: 0, ri: 0 };
        assert(views(c.left@).skip(0) == views(c.left@));
        assert(views(c.right@).skip(0) == views(c.right@));
        c
    }

    /// The next tagged record, or `None` once both inputs are used up.
    pub fn next(&mut self) -> (r: Option<Side<Mod>>)
        requires
            old(self).wf(),
        ensures
            final(self).wf(),
            old(self).remaining().len() == 0 ==> r is None && final(self).remaining().len() == 0,
            old(self).remaining().len() > 0 ==> r is Some && side_view(r->0) == old(self).remaining()[0]
                && final(self).remaining() == old(self).remaining().drop_first(),
    {
        let ghost lv = views(self.left@);
        let ghost rv = views(self.right@);
        loop
            invariant
                self.wf(),
                lv == views(self.left@),
                rv == views(self.right@),
                self.remaining() == old(self).remaining(),
            decreases self.left@.len() - self.li + self.right@.len() - self.ri,
        {
            let ghost l = lv.skip(self.li as int);
            let ghost r = rv.skip(self.ri as int);
            let have_left = self.li < self.left.len();
            let have_right = self.ri < self.right.len();
            if !have_left && !have_right {
                return None;
            }
            assert(l.len() > 0 ==> l.drop_first() == lv.skip(self.li + 1));
            assert(r.len() > 0 ==> r.drop_first() == rv.skip(self.ri + 1));
            if have_left && have_right {
                let a = self.left[self.li].identity();
                let b = self.right[self.ri].identity();
                assert(l[0] == self.left@[self.li as int]@);
                assert(r[0] == self.right@[self.ri as int]@);
                if a == b {
                    self.li = self.li + 1;
                    self.ri = self.ri + 1;
                } else if a < b {
                    let m = self.left[self.li].clone();
                    self.li = self.li + 1;
                    return Some(Side::Left(m));
                } else {
                    let m = self.right[self.ri].clone();
                    self.ri = self.ri + 1;
                    return Some(Side::Right(m));
                }
            } else if have_right {
                assert(r[0] == self.right@[self.ri as int]@);
                let m = self.right[self.ri].clone();
                self.ri = self.ri + 1;
                return Some(Side::Right(m));
            } else {
                assert(l[0] == self.left@[self.li as int]@);
                let m = self.left[self.li].clone();
                self.li = self.li + 1;
                return Some(Side::Left(m));
            }
        }
    }

    /// Runs the pass to its end: the records to add and the records to remove.
    pub fn split(&mut self) -> (r: (Vec<Mod>, Vec<Mod>))
        requires
            old(self).wf(),
        ensures
            final(self).wf(),
            views(r.0@) == added(old(self).remaining()),
            views(r.1@) == removed(old(self).remaining()),
    {
        let mut add: Vec<Mod> = Vec::new();
        let mut rm: Vec<Mod> = Vec::new();
        let ghost d0 = self.remaining();
        loop
            invariant
                self.wf(),
                d0 == old(self).remaining(),
                added(d0) == views(add@) + added(self.remaining()),
                removed(d0) == views(rm@) + removed(self.remaining()),
            decreases self.remaining().len(),
        {
            let ghost d = self.remaining();
            match self.next() {
                None => {
                    assert(views(add@) + added(d) =~= views(add@));
                    assert(views(rm@) + removed(d) =~= views(rm@));
                    return (add, rm);
                }
                Some(Side::Right(m)) => {
                    let ghost prev = add@;
                    add.push(m);
                    assert(views(add@) =~= views(prev).push(add@.last()@));
                }
                Some(Side::Left(m)) => {
                    let ghost prev = rm@;
                    rm.push(m);
                    assert(views(rm@) =~= views(prev).push(rm@.last()@));
                }
            }
        }
    }
}

/// Starts the merge-join of `left` against `right`.
pub fn compare(left: Vec<Mod>, right: Vec<Mod>) -> (c: Comparer)
    ensures
        c.wf(),
        c.remaining() == diff_spec(views(left@), views(right@)),
{
    Comparer::new(left, right)
}

} // verus!
