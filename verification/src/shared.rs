//! The word windows that two texts have in common, listed once each in
//! dictionary order.

use vstd::prelude::*;
use crate::chars::{chars_of, chars_eq};
use crate::text::views;
use crate::ngrams::{windows, window_views, window_eq};
use crate::words::{strings, normalized_tokens, normalized_token_list};

verus! {

/// Whether word `a` comes before word `b` in dictionary order, characters
/// compared by code point.
pub open spec fn word_lt(a: Seq<char>, b: Seq<char>) -> bool
    decreases a.len(),
{
    if b.len() == 0 {
        false
    } else if a.len() == 0 {
        true
    } else if a[0] != b[0] {
        a[0] < b[0]
    } else {
        word_lt(a.drop_first(), b.drop_first())
    }
}

/// Whether window `a` comes before window `b` in dictionary order, words
/// compared in dictionary order.
pub open spec fn window_lt(a: Seq<Seq<char>>, b: Seq<Seq<char>>) -> bool
    decreases a.len(),
{
    if b.len() == 0 {
        false
    } else if a.len() == 0 {
        true
    } else if a[0] != b[0] {
        word_lt(a[0], b[0])
    } else {
        window_lt(a.drop_first(), b.drop_first())
    }
}

/// Strictly ascending in dictionary order; such a list holds nothing twice.
pub open spec fn ascending(list: Seq<Seq<Seq<char>>>) -> bool {
    forall|i: int, j: int| 0 <= i < j < list.len() ==> window_lt(list[i], list[j])
}

pub proof fn lemma_word_order(a: Seq<char>, b: Seq<char>, c: Seq<char>)
    ensures
        !word_lt(a, a),
        a != b ==> word_lt(a, b) || word_lt(b, a),
        word_lt(a, b) && word_lt(b, c) ==> word_lt(a, c),
    decreases a.len(),
{
    broadcast use vstd::utf8::char_u32_cast;

    if a.len() > 0 {
        let ra = a.drop_first();
        if b.len() > 0 {
            let rb = b.drop_first();
            if c.len() > 0 {
                lemma_word_order(ra, rb, c.drop_first());
            } else {
                lemma_word_order(ra, rb, c);
            }
            if a[0] == b[0] && ra == rb {
                assert(a =~= seq![a[0]] + ra);
                assert(b =~= seq![b[0]] + rb);
            }
        } else {
            lemma_word_order(ra, ra, ra);
        }
    } else if b.len() > 0 {
    } else {
        assert(a =~= b);
    }
}

pub proof fn lemma_window_order(a: Seq<Seq<char>>, b: Seq<Seq<char>>, c: Seq<Seq<char>>)
    ensures
        !window_lt(a, a),
        a != b ==> window_lt(a, b) || window_lt(b, a),
        window_lt(a, b) && window_lt(b, c) ==> window_lt(a, c),
    decreases a.len(),
{
    if a.len() > 0 {
        let ra = a.drop_first();
        if b.len() > 0 {
            let rb = b.drop_first();
            if c.len() > 0 {
                lemma_window_order(ra, rb, c.drop_first());
                lemma_word_order(a[0], b[0], c[0]);
                lemma_word_order(b[0], a[0], c[0]);
            } else {
                lemma_window_order(ra, rb, c);
                lemma_word_order(a[0], b[0], b[0]);
                lemma_word_order(b[0], a[0], a[0]);
            }
            if a[0] == b[0] && ra == rb {
                assert(a =~= seq![a[0]] + ra);
                assert(b =~= seq![b[0]] + rb);
            }
        } else {
            lemma_window_order(ra, ra, ra);
        }
    } else if b.len() > 0 {
    } else {
        assert(a =~= b);
    }
}

/// Whether word `a` comes before word `b` in dictionary order.
pub fn word_less(a: &Vec<char>, b: &Vec<char>) -> (lt: bool)
    ensures
        lt == word_lt(a@, b@),
{
    let mut i: usize = 0;
    proof {
        assert(a@.skip(0) =~= a@);
        assert(b@.skip(0) =~= b@);
    }
    while i < a.len() && i < b.len()
        invariant
            i <= a.len(),
            i <= b.len(),
            word_lt(a@, b@) == word_lt(a@.skip(i as int), b@.skip(i as int)),
        decreases a.len() - i,
    {
        proof {
            let ra = a@.skip(i as int);
            let rb = b@.skip(i as int);
            assert(ra[0] == a@[i as int]);
            assert(rb[0] == b@[i as int]);
            assert(ra.drop_first() =~= a@.skip(i + 1));
            assert(rb.drop_first() =~= b@.skip(i + 1));
        }
        if a[i] != b[i] {
            return a[i] < b[i];
        }
        i += 1;
    }
    i < b.len()
}

/// Whether window `a` comes before window `b` in dictionary order.
pub fn window_less(a: &Vec<Vec<char>>, b: &Vec<Vec<char>>) -> (lt: bool)
    ensures
        lt == window_lt(views(a@), views(b@)),
{
    let ghost va = views(a@);
    let ghost vb = views(b@);
    let mut i: usize = 0;
    proof {
        assert(va.skip(0) =~= va);
        assert(vb.skip(0) =~= vb);
    }
    while i < a.len() && i < b.len()
        invariant
            i <= a.len(),
            i <= b.len(),
            va == views(a@),
            vb == views(b@),
            window_lt(va, vb) == window_lt(va.skip(i as int), vb.skip(i as int)),
        decreases a.len() - i,
    {
        proof {
            let ra = va.skip(i as int);
            let rb = vb.skip(i as int);
            assert(ra[0] == a@[i as int]@);
            assert(rb[0] == b@[i as int]@);
            assert(ra.drop_first() =~= va.skip(i + 1));
            assert(rb.drop_first() =~= vb.skip(i + 1));
        }
        if !chars_eq(&a[i], &b[i]) {
            return word_less(&a[i], &b[i]);
        }
        i += 1;
    }
    i < b.len()
}

/// The views of a list of windows held as characters.
pub open spec fn wins(list: Seq<Vec<Vec<char>>>) -> Seq<Seq<Seq<char>>> {
    list.map_values(|w: Vec<Vec<char>>| views(w@))
}

/// The window of `n` words of `toks` at `i`.
pub fn window_at(toks: &Vec<Vec<char>>, i: usize, n: usize) -> (w: Vec<Vec<char>>)
    requires
        i + n <= toks.len(),
    ensures
        views(w@) == views(toks@).subrange(i as int, i + n),
{
    let mut w: Vec<Vec<char>> = Vec::new();
    let mut k: usize = 0;
    while k < n
        invariant
            k <= n,
            i + n <= toks.len(),
            w.len() == k,
            forall|m: int| 0 <= m < k ==> (#[trigger] w@[m])@ == toks@[i + m]@,
        decreases n - k,
    {
        w.push(toks[i + k].clone());
        k += 1;
    }
    proof {
        assert(views(w@) =~= views(toks@).subrange(i as int, i + n));
    }
    w
}

/// Puts a window into an ascending list unless the list holds it.
pub fn insert_window(list: &mut Vec<Vec<Vec<char>>>, w: Vec<Vec<char>>)
    requires
        ascending(wins(old(list)@)),
    ensures
        ascending(wins(final(list)@)),
        forall|x: Seq<Seq<char>>|
            #[trigger] wins(final(list)@).contains(x) <==> wins(old(list)@).contains(x) || x
                == views(w@),
{
    let ghost before = wins(list@);
    let ghost wv = views(w@);
    let mut p: usize = 0;
    while p < list.len() && window_less(&list[p], &w)
        invariant
            p <= list.len(),
            before == wins(list@),
            wv == views(w@),
            forall|k: int| 0 <= k < p ==> window_lt(before[k], wv),
        decreases list.len() - p,
    {
        p += 1;
    }
    let same: bool = p < list.len() && !window_less(&w, &list[p]);
    if same {
        proof {
            lemma_window_order(before[p as int], wv, wv);
            assert(before[p as int] == wv);
            assert forall|x: Seq<Seq<char>>|
                before.contains(x) <==> before.contains(x) || x == wv by {
                if x == wv {
                    assert(before[p as int] == x);
                }
            }
        }
        return ;
    }
    list.insert(p, w);
    proof {
        let after = wins(list@);
        assert(after =~= before.insert(p as int, wv));
        assert forall|i: int, j: int| 0 <= i < j < after.len() implies window_lt(
            after[i],
            after[j],
        ) by {
            if j < p {
                assert(window_lt(before[i], before[j]));
            } else if j == p {
                assert(window_lt(before[i], wv));
            } else if i < p {
                assert(window_lt(before[i], before[j - 1]));
            } else if i == p {
                if j - 1 > p {
                    assert(window_lt(before[p as int], before[j - 1]));
                }
                lemma_window_order(wv, before[p as int], before[j - 1]);
            } else {
                assert(window_lt(before[i - 1], before[j - 1]));
            }
        }
        assert forall|x: Seq<Seq<char>>| after.contains(x) <==> before.contains(x) || x == wv by {
            if after.contains(x) {
                let k = choose|k: int| 0 <= k < after.len() && after[k] == x;
                if k < p {
                    assert(before[k] == x);
                } else if k > p {
                    assert(before[k - 1] == x);
                }
            }
            if before.contains(x) {
                let k = choose|k: int| 0 <= k < before.len() && before[k] == x;
                if k < p {
                    assert(after[k] == x);
                } else {
                    assert(after[k + 1] == x);
                }
            }
            if x == wv {
                assert(after[p as int] == x);
            }
        }
    }
}

/// Whether the window of `a` at `i` is a window of `b`.
pub fn occurs_in(a: &Vec<Vec<char>>, i: usize, b: &Vec<Vec<char>>, n: usize) -> (found: bool)
    requires
        n > 0,
        i + n <= a.len(),
    ensures
        found == windows(views(b@), n as int).contains(views(a@).subrange(i as int, i + n)),
{
    let ghost wb = windows(views(b@), n as int);
    let ghost target = views(a@).subrange(i as int, i + n);
    if b.len() < n {
        return false;
    }
    let count: usize = b.len() - n + 1;
    let mut j: usize = 0;
    while j < count
        invariant
            j <= count,
            n > 0,
            b.len() >= n,
            count == b.len() - n + 1,
            i + n <= a.len(),
            wb == windows(views(b@), n as int),
            target == views(a@).subrange(i as int, i + n),
            forall|k: int| 0 <= k < j ==> wb[k] != target,
        decreases count - j,
    {
        if window_eq(a, i, b, j, n) {
            proof {
                assert(wb[j as int] == target);
            }
            return true;
        }
        j += 1;
    }
    false
}

/// The windows of `n` normalised words that two texts have in common,
/// each listed once, in dictionary order.
pub fn shared_ngrams(text_a: &str, text_b: &str, n: usize) -> (out: Vec<Vec<String>>)
    requires
        n >= 1,
    ensures
        ascending(window_views(out@)),
        forall|x: Seq<Seq<char>>|
            #[trigger] window_views(out@).contains(x) <==> windows(
                normalized_tokens(text_a@),
                n as int,
            ).contains(x) && windows(normalized_tokens(text_b@), n as int).contains(x),
{
    let a = normalized_token_list(&chars_of(text_a));
    let b = normalized_token_list(&chars_of(text_b));
    let ghost wa = windows(views(a@), n as int);
    let ghost wb = windows(views(b@), n as int);
    let mut list: Vec<Vec<Vec<char>>> = Vec::new();
    if n > 0 && a.len() >= n {
        let count: usize = a.len() - n + 1;
        let mut i: usize = 0;
        while i < count
            invariant
                i <= count,
                n > 0,
                a.len() >= n,
                count == a.len() - n + 1,
                wa == windows(views(a@), n as int),
                wb == windows(views(b@), n as int),
                ascending(wins(list@)),
                forall|x: Seq<Seq<char>>|
                    #[trigger] wins(list@).contains(x) <==> wa.take(i as int).contains(x)
                        && wb.contains(x),
            decreases count - i,
        {
            let ghost before = wins(list@);
            let ghost cur = wa[i as int];
            proof {
                assert(cur == views(a@).subrange(i as int, i + n));
            }
            let found = occurs_in(&a, i, &b, n);
            if found {
                insert_window(&mut list, window_at(&a, i, n));
            }
            proof {
                let now = wins(list@);
                let prev = wa.take(i as int);
                let next = wa.take(i + 1);
                assert(next =~= prev.push(cur));
                assert(found == wb.contains(cur));
                assert forall|x: Seq<Seq<char>>|
                    now.contains(x) <==> next.contains(x) && wb.contains(x) by {
                    assert(now.contains(x) <==> before.contains(x) || (found && x == cur));
                    assert(before.contains(x) <==> prev.contains(x) && wb.contains(x));
                    if prev.contains(x) {
                        let k = choose|k: int| 0 <= k < prev.len() && prev[k] == x;
                        assert(next[k] == x);
                    }
                    if x == cur {
                        assert(next[i as int] == x);
                    }
                    if next.contains(x) {
                        let k = choose|k: int| 0 <= k < next.len() && next[k] == x;
                        if k < i {
                            assert(prev[k] == x);
                        }
                    }
                }
            }
            i += 1;
        }
        proof {
            assert(wa.take(count as int) =~= wa);
        }
    } else {
        proof {
            assert(wa.len() == 0);
        }
    }
    let mut out: Vec<Vec<String>> = Vec::new();
    let mut k: usize = 0;
    while k < list.len()
        invariant
            k <= list.len(),
            out.len() == k,
            forall|m: int| 0 <= m < k ==> strings((#[trigger] out@[m])@) == views(list@[m]@),
        decreases list.len() - k,
    {
        out.push(crate::words::to_strings(&list[k]));
        k += 1;
    }
    proof {
        assert(window_views(out@) =~= wins(list@));
    }
    out
}

} // verus!
