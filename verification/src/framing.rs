//! Line-oriented framing of text that arrives from outside: the data lines
//! of an event stream and the settings of an environment file.

use vstd::prelude::*;
use crate::chars::{chars_of, string_of, chars_eq};
use crate::text::{views, trimmed, stripped, trim_chars, strip_chars, CharClass};
use crate::words::{strings, to_strings};

verus! {

/// The characters of `s` behind its last line feed.
pub open spec fn open_line(s: Seq<char>) -> Seq<char>
    decreases s.len(),
{
    if s.len() == 0 || s.last() == '\n' {
        Seq::empty()
    } else {
        open_line(s.drop_last()).push(s.last())
    }
}

/// The lines of `s` that a line feed ends.
pub open spec fn closed_lines(s: Seq<char>) -> Seq<Seq<char>>
    decreases s.len(),
{
    if s.len() == 0 {
        Seq::empty()
    } else if s.last() == '\n' {
        closed_lines(s.drop_last()).push(open_line(s.drop_last()))
    } else {
        closed_lines(s.drop_last())
    }
}

/// The lines of `s`: the pieces between its line feeds. The last piece
/// counts as a line even when it is empty.
pub open spec fn lines(s: Seq<char>) -> Seq<Seq<char>> {
    closed_lines(s).push(open_line(s))
}

/// Whether `s` starts with `prefix`.
pub open spec fn starts_with(s: Seq<char>, prefix: Seq<char>) -> bool {
    s.len() >= prefix.len() && s.take(prefix.len() as int) == prefix
}

/// Splits `s` at its line feeds.
pub fn split_lines(s: &Vec<char>) -> (out: Vec<Vec<char>>)
    ensures
        views(out@) == lines(s@),
{
    let mut out: Vec<Vec<char>> = Vec::new();
    let mut cur: Vec<char> = Vec::new();
    let mut i: usize = 0;
    proof {
        assert(views(out@) =~= closed_lines(s@.take(0)));
    }
    while i < s.len()
        invariant
            i <= s.len(),
            views(out@) == closed_lines(s@.take(i as int)),
            cur@ == open_line(s@.take(i as int)),
        decreases s.len() - i,
    {
        proof {
            assert(s@.take(i + 1).drop_last() =~= s@.take(i as int));
        }
        if s[i] == '\n' {
            let ghost before = out@;
            out.push(cur);
            proof {
                assert(views(out@) =~= views(before).push(cur@));
            }
            cur = Vec::new();
        } else {
            cur.push(s[i]);
        }
        i += 1;
    }
    proof {
        assert(s@.take(i as int) =~= s@);
    }
    let ghost before = out@;
    out.push(cur);
    proof {
        assert(views(out@) =~= views(before).push(cur@));
    }
    out
}

/// Whether `s` starts with the characters of `prefix`.
pub fn chars_start_with(s: &Vec<char>, prefix: &Vec<char>) -> (b: bool)
    ensures
        b == starts_with(s@, prefix@),
{
    if s.len() < prefix.len() {
        return false;
    }
    let ghost head = s@.take(prefix.len() as int);
    let mut i: usize = 0;
    while i < prefix.len()
        invariant
            i <= prefix.len() <= s.len(),
            head == s@.take(prefix.len() as int),
            forall|k: int| 0 <= k < i ==> head[k] == prefix@[k],
        decreases prefix.len() - i,
    {
        if s[i] != prefix[i] {
            proof {
                assert(head[i as int] == s@[i as int]);
            }
            return false;
        }
        i += 1;
    }
    proof {
        assert(head =~= prefix@);
    }
    true
}

/// The characters of `s` from `from` on.
pub fn chars_from(s: &Vec<char>, from: usize) -> (r: Vec<char>)
    requires
        from <= s.len(),
    ensures
        r@ == s@.skip(from as int),
{
    let mut r: Vec<char> = Vec::new();
    let mut i: usize = from;
    while i < s.len()
        invariant
            from <= i <= s.len(),
            r@ == s@.subrange(from as int, i as int),
        decreases s.len() - i,
    {
        r.push(s[i]);
        proof {
            assert(s@.subrange(from as int, i + 1) =~= s@.subrange(from as int, i as int).push(
                s@[i as int],
            ));
        }
        i += 1;
    }
    proof {
        assert(s@.subrange(from as int, s.len() as int) =~= s@.skip(from as int));
    }
    r
}

/// What a data line of an event stream begins with.
pub open spec fn data_prefix() -> Seq<char> {
    seq!['d', 'a', 't', 'a', ':', ' ']
}

/// The payload that ends an event stream.
pub open spec fn done_marker() -> Seq<char> {
    seq!['[', 'D', 'O', 'N', 'E', ']']
}

/// The payload of a line: what follows the data prefix of the trimmed
/// line, if it begins with that prefix.
pub open spec fn payload_of(line: Seq<char>) -> Option<Seq<char>> {
    if starts_with(trimmed(line), data_prefix()) {
        Some(trimmed(line).skip(6))
    } else {
        None
    }
}

/// The payloads of the first `k` lines, and whether the stream has ended
/// among them. Lines behind the end marker carry nothing.
pub open spec fn payloads_upto(all: Seq<Seq<char>>, k: int) -> (Seq<Seq<char>>, bool)
    decreases k,
{
    if k <= 0 {
        (Seq::empty(), false)
    } else {
        let (found, done) = payloads_upto(all, k - 1);
        if done {
            (found, true)
        } else {
            match payload_of(all[k - 1]) {
                Some(p) => if p == done_marker() {
                    (found, true)
                } else {
                    (found.push(p), false)
                },
                None => (found, false),
            }
        }
    }
}

/// The payloads of an event stream, in order, up to its end marker.
pub open spec fn stream_payloads(body: Seq<char>) -> Seq<Seq<char>> {
    payloads_upto(lines(body), lines(body).len() as int).0
}

/// Reads the payloads off the body of an event stream: of each line that,
/// trimmed, begins with `data: `, what follows that prefix; nothing from
/// the line that carries `[DONE]` on.
pub fn sse_payloads(body: &str) -> (out: Vec<String>)
    ensures
        strings(out@) == stream_payloads(body@),
{
    let all = split_lines(&chars_of(body));
    let prefix: Vec<char> = vec!['d', 'a', 't', 'a', ':', ' '];
    let marker: Vec<char> = vec!['[', 'D', 'O', 'N', 'E', ']'];
    proof {
        assert(prefix@ =~= data_prefix());
        assert(marker@ =~= done_marker());
    }
    let mut found: Vec<Vec<char>> = Vec::new();
    let mut done = false;
    let mut i: usize = 0;
    proof {
        assert(views(found@) =~= Seq::<Seq<char>>::empty());
    }
    while i < all.len() && !done
        invariant
            i <= all.len(),
            prefix@ == data_prefix(),
            marker@ == done_marker(),
            done ==> payloads_upto(views(all@), all.len() as int) == (views(found@), true),
            !done ==> payloads_upto(views(all@), i as int) == (views(found@), false),
        decreases all.len() - i, if done { 0int } else { 1int },
    {
        let line = trim_chars(&all[i]);
        if chars_start_with(&line, &prefix) {
            let payload = chars_from(&line, 6);
            if chars_eq(&payload, &marker) {
                done = true;
                proof {
                    lemma_done_stays(views(all@), i + 1, all.len() as int);
                }
            } else {
                let ghost before = found@;
                found.push(payload);
                proof {
                    assert(views(found@) =~= views(before).push(payload@));
                }
            }
        }
        i += 1;
    }
    to_strings(&found)
}

/// Once the stream has ended, further lines change nothing.
pub proof fn lemma_done_stays(all: Seq<Seq<char>>, k: int, n: int)
    requires
        0 <= k <= n,
        payloads_upto(all, k).1,
    ensures
        payloads_upto(all, n) == payloads_upto(all, k),
    decreases n - k,
{
    if k < n {
        lemma_done_stays(all, k, n - 1);
    }
}

/// A raw setting cleaned up: trimmed, then freed of the double quotes
/// around it.
pub open spec fn cleaned(raw: Seq<char>) -> Seq<char> {
    stripped(trimmed(raw), CharClass::Quote)
}

/// Cleans up a raw setting.
pub fn clean_value(raw: &str) -> (value: String)
    ensures
        value@ == cleaned(raw@),
{
    let trimmed_raw = trim_chars(&chars_of(raw));
    string_of(&strip_chars(&trimmed_raw, CharClass::Quote))
}

/// What a line sets `key` to: the cleaned rest of a line that begins with
/// the key and an equals sign, if that rest is not empty.
pub open spec fn setting_of(line: Seq<char>, key: Seq<char>) -> Option<Seq<char>> {
    let prefix = key.push('=');
    if starts_with(line, prefix) && cleaned(line.skip(prefix.len() as int)).len() > 0 {
        Some(cleaned(line.skip(prefix.len() as int)))
    } else {
        None
    }
}

/// The first setting of `key` among the lines from `k` on.
pub open spec fn first_setting(all: Seq<Seq<char>>, key: Seq<char>, k: int) -> Option<Seq<char>>
    decreases all.len() - k,
{
    if k >= all.len() || k < 0 {
        None
    } else if setting_of(all[k], key) is Some {
        setting_of(all[k], key)
    } else {
        first_setting(all, key, k + 1)
    }
}

/// Looks `key` up in the text of an environment file: the value of the
/// first line of the form `KEY=value` whose value, cleaned up, is not
/// empty.
pub fn env_value(contents: &str, key: &str) -> (value: Option<String>)
    ensures
        match first_setting(lines(contents@), key@, 0) {
            Some(v) => value is Some && value->0@ == v,
            None => value is None,
        },
{
    let all = split_lines(&chars_of(contents));
    let mut prefix = chars_of(key);
    prefix.push('=');
    let mut i: usize = 0;
    while i < all.len()
        invariant
            i <= all.len(),
            prefix@ == key@.push('='),
            views(all@) == lines(contents@),
            first_setting(views(all@), key@, i as int) == first_setting(views(all@), key@, 0),
        decreases all.len() - i,
    {
        if chars_start_with(&all[i], &prefix) {
            let rest = chars_from(&all[i], prefix.len());
            let value = strip_chars(&trim_chars(&rest), CharClass::Quote);
            if value.len() > 0 {
                return Some(string_of(&value));
            }
        }
        i += 1;
    }
    None
}

} // verus!
