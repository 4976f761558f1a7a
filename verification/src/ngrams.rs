//! Word windows, their overlap, and similarity scores as exact ratios.

use vstd::prelude::*;
use crate::chars::{chars_of, string_of, chars_eq};
use crate::text::views;
use crate::words::{strings, normalized_tokens, normalized_token_list};

verus! {

/// The windows of `n` consecutive words of `toks`, in order. There is none
/// when `n` is zero or `toks` has fewer than `n` words.
pub open spec fn windows(toks: Seq<Seq<char>>, n: int) -> Seq<Seq<Seq<char>>> {
    if n <= 0 || toks.len() < n {
        Seq::empty()
    } else {
        Seq::new((toks.len() - n + 1) as nat, |i: int| toks.subrange(i, i + n))
    }
}

/// Whether some window of `n` words of `a` equals one of `b`.
pub open spec fn share_window(a: Seq<Seq<char>>, b: Seq<Seq<char>>, n: int) -> bool {
    exists|i: int, j: int|
        0 <= i < windows(a, n).len() && 0 <= j < windows(b, n).len() && #[trigger] windows(a, n)[i]
            == #[trigger] windows(b, n)[j]
}

/// Whether the window of `n` words of `b` at `j` occurs in `a` at a
/// position from `from` up to, but not including, `to`.
pub open spec fn window_found_in(
    a: Seq<Seq<char>>,
    b: Seq<Seq<char>>,
    n: int,
    j: int,
    from: int,
    to: int,
) -> bool {
    exists|i: int| from <= i < to && #[trigger] a.subrange(i, i + n) == b.subrange(j, j + n)
}

/// Whether the `n` words of `a` from `i` equal the `n` words of `b` from `j`.
pub fn window_eq(a: &Vec<Vec<char>>, i: usize, b: &Vec<Vec<char>>, j: usize, n: usize) -> (eq: bool)
    requires
        i + n <= a.len(),
        j + n <= b.len(),
    ensures
        eq == (views(a@).subrange(i as int, i + n) == views(b@).subrange(j as int, j + n)),
{
    let ghost wa = views(a@).subrange(i as int, i + n);
    let ghost wb = views(b@).subrange(j as int, j + n);
    let mut k: usize = 0;
    while k < n
        invariant
            k <= n,
            i + n <= a.len(),
            j + n <= b.len(),
            wa == views(a@).subrange(i as int, i + n),
            wb == views(b@).subrange(j as int, j + n),
            forall|m: int| 0 <= m < k ==> wa[m] == wb[m],
        decreases n - k,
    {
        if !chars_eq(&a[i + k], &b[j + k]) {
            proof {
                assert(wa[k as int] == a@[i + k]@);
                assert(wb[k as int] == b@[j + k]@);
            }
            return false;
        }
        proof {
            assert(wa[k as int] == a@[i + k]@);
            assert(wb[k as int] == b@[j + k]@);
        }
        k += 1;
    }
    proof {
        assert(wa =~= wb);
    }
    true
}

/// Whether the window of `n` words of `b` at `j` occurs in `a` at a
/// position from `from` up to, but not including, `to`.
pub fn window_occurs(
    a: &Vec<Vec<char>>,
    from: usize,
    to: usize,
    b: &Vec<Vec<char>>,
    j: usize,
    n: usize,
) -> (found: bool)
    requires
        to + n <= a.len() + 1 || to <= from,
        j + n <= b.len(),
    ensures
        found == window_found_in(
            views(a@),
            views(b@),
            n as int,
            j as int,
            from as int,
            to as int,
        ),
{
    let mut i: usize = from;
    while i < to
        invariant
            from <= i,
            i <= to || to <= from,
            to + n <= a.len() + 1 || to <= from,
            j + n <= b.len(),
            !window_found_in(views(a@), views(b@), n as int, j as int, from as int, i as int),
        decreases to - i,
    {
        if window_eq(a, i, b, j, n) {
            return true;
        }
        proof {
            let va = views(a@);
            let vb = views(b@);
            if window_found_in(va, vb, n as int, j as int, from as int, i + 1) {
                let w = choose|w: int|
                    from <= w < i + 1 && #[trigger] va.subrange(w, w + n) == vb.subrange(
                        j as int,
                        j + n,
                    );
                if w < i {
                    assert(window_found_in(va, vb, n as int, j as int, from as int, i as int));
                }
            }
        }
        i += 1;
    }
    proof {
        let va = views(a@);
        let vb = views(b@);
        if window_found_in(va, vb, n as int, j as int, from as int, to as int) {
            let w = choose|w: int|
                from <= w < to && #[trigger] va.subrange(w, w + n) == vb.subrange(j as int, j + n);
            assert(window_found_in(va, vb, n as int, j as int, from as int, i as int));
        }
    }
    false
}

/// Whether two word lists share a window of `n` words.
pub fn lists_share_window(a: &Vec<Vec<char>>, b: &Vec<Vec<char>>, n: usize) -> (found: bool)
    ensures
        found == share_window(views(a@), views(b@), n as int),
{
    let ghost va = views(a@);
    let ghost vb = views(b@);
    if n == 0 || a.len() < n || b.len() < n {
        return false;
    }
    let count_a: usize = a.len() - n + 1;
    let count_b: usize = b.len() - n + 1;
    let mut j: usize = 0;
    while j < count_b
        invariant
            j <= count_b,
            n > 0,
            count_a == a.len() - n + 1,
            count_b == b.len() - n + 1,
            a.len() >= n,
            b.len() >= n,
            va == views(a@),
            vb == views(b@),
            forall|i: int, m: int|
                0 <= i < count_a && 0 <= m < j ==> #[trigger] windows(va, n as int)[i]
                    != #[trigger] windows(vb, n as int)[m],
        decreases count_b - j,
    {
        if window_occurs(a, 0, count_a, b, j, n) {
            proof {
                let i = choose|i: int|
                    0 <= i < count_a && #[trigger] va.subrange(i, i + n) == vb.subrange(
                        j as int,
                        j + n,
                    );
                assert(windows(va, n as int)[i] == windows(vb, n as int)[j as int]);
            }
            return true;
        }
        proof {
            assert forall|i: int| 0 <= i < count_a implies #[trigger] windows(va, n as int)[i]
                != windows(vb, n as int)[j as int] by {
                if windows(va, n as int)[i] == windows(vb, n as int)[j as int] {
                    assert(va.subrange(i, i + n) == vb.subrange(j as int, j + n));
                    assert(window_found_in(va, vb, n as int, j as int, 0, count_a as int));
                }
            }
        }
        j += 1;
    }
    false
}

/// Whether two texts share a window of `n` consecutive normalised words,
/// for a window length of at least one.
pub fn has_ngram_overlap(text_a: &str, text_b: &str, n: usize) -> (found: bool)
    requires
        n >= 1,
    ensures
        found == share_window(normalized_tokens(text_a@), normalized_tokens(text_b@), n as int),
{
    let a = normalized_token_list(&chars_of(text_a));
    let b = normalized_token_list(&chars_of(text_b));
    lists_share_window(&a, &b, n)
}


/// The views of a list of word windows.
pub open spec fn window_views(list: Seq<Vec<String>>) -> Seq<Seq<Seq<char>>> {
    list.map_values(|w: Vec<String>| strings(w@))
}

/// The windows of `n` consecutive normalised words of a text, in order,
/// for a window length of at least one. There is none when the text has
/// fewer than `n` words.
pub fn extract_ngram_windows(text: &str, n: usize) -> (out: Vec<Vec<String>>)
    requires
        n >= 1,
    ensures
        window_views(out@) == windows(normalized_tokens(text@), n as int),
{
    let toks = normalized_token_list(&chars_of(text));
    let ghost v = views(toks@);
    let mut out: Vec<Vec<String>> = Vec::new();
    if n == 0 || toks.len() < n {
        proof {
            assert(window_views(out@) =~= windows(v, n as int));
        }
        return out;
    }
    let count: usize = toks.len() - n + 1;
    let mut i: usize = 0;
    while i < count
        invariant
            i <= count,
            n > 0,
            toks.len() >= n,
            count == toks.len() - n + 1,
            v == views(toks@),
            out.len() == i,
            forall|k: int| 0 <= k < i ==> strings((#[trigger] out@[k])@) == v.subrange(k, k + n),
        decreases count - i,
    {
        let mut window: Vec<String> = Vec::new();
        let mut k: usize = 0;
        while k < n
            invariant
                k <= n,
                i + n <= toks.len(),
                v == views(toks@),
                window.len() == k,
                forall|m: int| 0 <= m < k ==> (#[trigger] window@[m])@ == v[i + m],
            decreases n - k,
        {
            window.push(string_of(&toks[i + k]));
            k += 1;
        }
        proof {
            assert(strings(window@) =~= v.subrange(i as int, i + n));
        }
        out.push(window);
        i += 1;
    }
    proof {
        assert(window_views(out@) =~= windows(v, n as int));
    }
    out
}

} // verus!
