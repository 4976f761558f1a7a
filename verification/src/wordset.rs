//! Finite sets of words, held as lists without repetition.

use vstd::prelude::*;
use vstd::seq_lib::seq_to_set_is_finite;
use vstd::set_lib::lemma_set_intersect_union_lens;
use crate::chars::chars_eq;
use crate::text::views;

verus! {

/// A finite set of words. The words are kept in the order in which they were
/// first inserted.
#[derive(Clone, Debug)]
pub struct WordSet {
    pub words: Vec<Vec<char>>,
}

/// The number of the first `k` words of `a` that `b` contains.
pub open spec fn shared_upto(a: Seq<Seq<char>>, b: Set<Seq<char>>, k: int) -> nat
    decreases k,
{
    if k <= 0 {
        0
    } else {
        shared_upto(a, b, k - 1) + if b.contains(a[k - 1]) {
            1nat
        } else {
            0nat
        }
    }
}

/// Counting the words of a repetition-free list that a set contains gives
/// the size of the intersection.
pub proof fn lemma_shared_upto(a: Seq<Seq<char>>, b: Set<Seq<char>>, k: int)
    requires
        a.no_duplicates(),
        0 <= k <= a.len(),
    ensures
        shared_upto(a, b, k) == a.take(k).to_set().intersect(b).len(),
        shared_upto(a, b, k) <= k,
    decreases k,
{
    broadcast use vstd::set::group_set_axioms;

    let s = a.take(k).to_set();
    seq_to_set_is_finite(a.take(k));
    if k == 0 {
        assert(s.intersect(b) =~= Set::<Seq<char>>::empty());
    } else {
        lemma_shared_upto(a, b, k - 1);
        let ap = a.take(k - 1);
        let ak = a.take(k);
        let p = ap.to_set();
        seq_to_set_is_finite(ap);
        let w = a[k - 1];
        assert(!p.contains(w)) by {
            if p.contains(w) {
                let i = choose|i: int| 0 <= i < ap.len() && ap[i] == w;
                assert(a[i] == a[k - 1]);
            }
        }
        assert(s =~= p.insert(w)) by {
            assert forall|x: Seq<char>| s.contains(x) <==> p.insert(w).contains(x) by {
                if s.contains(x) {
                    let i = choose|i: int| 0 <= i < ak.len() && ak[i] == x;
                    if i < k - 1 {
                        assert(ap[i] == x);
                    }
                }
                if p.contains(x) {
                    let i = choose|i: int| 0 <= i < ap.len() && ap[i] == x;
                    assert(ak[i] == x);
                }
                if x == w {
                    assert(ak[k - 1] == x);
                }
            }
        }
        if b.contains(w) {
            assert(s.intersect(b) =~= p.intersect(b).insert(w));
        } else {
            assert(s.intersect(b) =~= p.intersect(b));
        }
    }
}

/// The words of `s`, each once, in order of first appearance.
pub open spec fn distinct(s: Seq<Seq<char>>) -> Seq<Seq<char>>
    decreases s.len(),
{
    if s.len() == 0 {
        Seq::empty()
    } else if distinct(s.drop_last()).contains(s.last()) {
        distinct(s.drop_last())
    } else {
        distinct(s.drop_last()).push(s.last())
    }
}

/// The distinct words of a list hold no word twice and are, as a set, the
/// words of the list.
pub proof fn lemma_distinct(s: Seq<Seq<char>>)
    ensures
        distinct(s).no_duplicates(),
        distinct(s).to_set() == s.to_set(),
        distinct(s).len() <= s.len(),
    decreases s.len(),
{
    if s.len() == 0 {
        assert(distinct(s).to_set() =~= s.to_set());
    } else {
        let d = s.drop_last();
        let w = s.last();
        lemma_distinct(d);
        let r = distinct(s);
        let rd = distinct(d);
        assert forall|x: Seq<char>| r.to_set().contains(x) <==> s.to_set().contains(x) by {
            assert(rd.to_set().contains(x) <==> d.to_set().contains(x));
            if r.contains(x) {
                let k = choose|k: int| 0 <= k < r.len() && r[k] == x;
                if k < rd.len() {
                    assert(rd[k] == x);
                    assert(rd.contains(x));
                    assert(d.contains(x));
                    let m = choose|m: int| 0 <= m < d.len() && d[m] == x;
                    assert(s[m] == x);
                } else {
                    assert(s[s.len() - 1] == x);
                }
            }
            if s.contains(x) {
                let m = choose|m: int| 0 <= m < s.len() && s[m] == x;
                if m < d.len() {
                    assert(d[m] == x);
                    assert(d.contains(x));
                    assert(rd.contains(x));
                    let k = choose|k: int| 0 <= k < rd.len() && rd[k] == x;
                    assert(r[k] == x);
                } else if rd.contains(w) {
                } else {
                    assert(r[r.len() - 1] == x);
                }
            }
        }
        assert(r.to_set() =~= s.to_set());
    }
}

impl View for WordSet {
    type V = Set<Seq<char>>;

    open spec fn view(&self) -> Set<Seq<char>> {
        views(self.words@).to_set()
    }
}

impl WordSet {
    /// The words as a list.
    pub open spec fn seq(&self) -> Seq<Seq<char>> {
        views(self.words@)
    }

    /// No word is listed twice.
    pub open spec fn wf(&self) -> bool {
        self.seq().no_duplicates()
    }

    /// A well-formed set is finite and has as many members as its list.
    pub proof fn lemma_len(&self)
        requires
            self.wf(),
        ensures
            self@.finite(),
            self@.len() == self.words.len(),
    {
        seq_to_set_is_finite(self.seq());
        self.seq().unique_seq_to_set();
    }

    pub fn new() -> (s: WordSet)
        ensures
            s.wf(),
            s@ == Set::<Seq<char>>::empty(),
            s.words.len() == 0,
    {
        let s = WordSet { words: Vec::new() };
        proof {
            assert(s@ =~= Set::<Seq<char>>::empty());
        }
        s
    }

    pub fn contains(&self, w: &Vec<char>) -> (b: bool)
        ensures
            b == self@.contains(w@),
    {
        let mut i: usize = 0;
        while i < self.words.len()
            invariant
                i <= self.words.len(),
                forall|k: int| 0 <= k < i ==> self.seq()[k] != w@,
            decreases self.words.len() - i,
        {
            if chars_eq(&self.words[i], w) {
                proof {
                    assert(self.seq()[i as int] == w@);
                    assert(self.seq().contains(w@));
                }
                return true;
            }
            i += 1;
        }
        proof {
            assert(!self.seq().contains(w@));
        }
        false
    }

    /// Adds `w` unless it is already a member.
    pub fn insert(&mut self, w: Vec<char>)
        requires
            old(self).wf(),
        ensures
            final(self).wf(),
            final(self)@ == old(self)@.insert(w@),
            final(self).words.len() <= old(self).words.len() + 1,
            final(self).seq() == if old(self)@.contains(w@) {
                old(self).seq()
            } else {
                old(self).seq().push(w@)
            },
    {
        if !self.contains(&w) {
            let ghost before = self.seq();
            self.words.push(w);
            proof {
                assert(self.seq() =~= before.push(w@));
                assert(self@ =~= before.to_set().insert(w@)) by {
                    assert forall|x: Seq<char>|
                        self@.contains(x) <==> before.to_set().insert(w@).contains(x) by {
                        if self@.contains(x) {
                            let i = choose|i: int| 0 <= i < self.seq().len() && self.seq()[i] == x;
                            if i < before.len() {
                                assert(before[i] == x);
                            }
                        }
                        if before.to_set().contains(x) {
                            let i = choose|i: int| 0 <= i < before.len() && before[i] == x;
                            assert(self.seq()[i] == x);
                        }
                        if x == w@ {
                            assert(self.seq()[before.len() as int] == x);
                        }
                    }
                }
            }
        } else {
            proof {
                assert(self@ =~= self@.insert(w@));
            }
        }
    }

    /// The number of members.
    pub fn len(&self) -> (n: usize)
        requires
            self.wf(),
        ensures
            n == self@.len(),
    {
        proof {
            self.lemma_len();
        }
        self.words.len()
    }

    pub fn is_empty(&self) -> (b: bool)
        requires
            self.wf(),
        ensures
            b == (self@.len() == 0),
    {
        proof {
            self.lemma_len();
        }
        self.words.len() == 0
    }

    /// The set of the words in `list`, its members in the order in which
    /// the list first names them.
    pub fn from_words(list: &Vec<Vec<char>>) -> (s: WordSet)
        ensures
            s.wf(),
            s@ == views(list@).to_set(),
            s.seq() == distinct(views(list@)),
            s.words.len() <= list.len(),
    {
        let mut s = WordSet::new();
        let mut i: usize = 0;
        proof {
            assert(views(list@.take(0)).to_set() =~= Set::<Seq<char>>::empty());
        }
        while i < list.len()
            invariant
                i <= list.len(),
                s.wf(),
                s@ == views(list@.take(i as int)).to_set(),
                s.seq() == distinct(views(list@.take(i as int))),
                s.words.len() <= i,
            decreases list.len() - i,
        {
            let w = list[i].clone();
            proof {
                assert(w@ == list@[i as int]@);
                let a = views(list@.take(i as int));
                let b = views(list@.take(i + 1));
                assert(b =~= a.push(w@));
                assert(b.drop_last() =~= a);
                lemma_distinct(a);
                assert(distinct(a).contains(w@) <==> a.to_set().contains(w@));
                assert(b.to_set() =~= a.to_set().insert(w@)) by {
                    assert forall|x: Seq<char>|
                        b.to_set().contains(x) <==> a.to_set().insert(w@).contains(x) by {
                        if b.to_set().contains(x) {
                            let k = choose|k: int| 0 <= k < b.len() && b[k] == x;
                            if k < a.len() {
                                assert(a[k] == x);
                            }
                        }
                        if a.to_set().contains(x) {
                            let k = choose|k: int| 0 <= k < a.len() && a[k] == x;
                            assert(b[k] == x);
                        }
                        if x == w@ {
                            assert(b[a.len() as int] == x);
                        }
                    }
                }
            }
            s.insert(w);
            i += 1;
        }
        proof {
            assert(list@.take(i as int) =~= list@);
        }
        s
    }

    /// The number of words that are members of both sets.
    pub fn shared_count(&self, other: &WordSet) -> (n: usize)
        requires
            self.wf(),
        ensures
            n == self@.intersect(other@).len(),
            n <= self@.len(),
    {
        let mut n: usize = 0;
        let mut i: usize = 0;
        while i < self.words.len()
            invariant
                i <= self.words.len(),
                self.wf(),
                n == shared_upto(self.seq(), other@, i as int),
                n <= i,
            decreases self.words.len() - i,
        {
            if other.contains(&self.words[i]) {
                n += 1;
            }
            i += 1;
        }
        proof {
            lemma_shared_upto(self.seq(), other@, i as int);
            assert(self.seq().take(i as int) =~= self.seq());
            self.lemma_len();
        }
        n
    }

    /// The number of words that are members of at least one of the sets.
    pub fn union_count(&self, other: &WordSet) -> (n: u128)
        requires
            self.wf(),
            other.wf(),
        ensures
            n == self@.union(other@).len(),
            n <= self@.len() + other@.len(),
    {
        let shared = self.shared_count(other);
        proof {
            self.lemma_len();
            other.lemma_len();
            lemma_set_intersect_union_lens(self@, other@);
            vstd::set_lib::lemma_len_intersect(other@, self@);
            assert(other@.intersect(self@) =~= self@.intersect(other@));
        }
        self.words.len() as u128 + (other.words.len() - shared) as u128
    }
}

} // verus!
