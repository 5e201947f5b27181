//! Word frequency: how often each word of a document occurs, ignoring case
//! and punctuation, most frequent first.
use vstd::prelude::*;
use crate::text::{chars_of, push_char};
use crate::stats::{is_ws, is_whitespace, word_start};
use crate::search::{lowercase, to_lower};
use crate::writer::{Writer, strings_view};

verus! {

/// The most entries the word frequency list holds.
pub const MAX_FREQ: usize = 50;

/// The words of `s`, as `split_whitespace` gives them.
pub open spec fn words_of(s: Seq<char>) -> Seq<Seq<char>>
    decreases s.len(),
{
    if s.len() == 0 {
        seq![]
    } else {
        let w = words_of(s.drop_last());
        let c = s.last();
        if is_ws(c) {
            w
        } else if word_start(s, s.len() - 1) {
            w.push(seq![c])
        } else {
            w.update(w.len() - 1, w.last().push(c))
        }
    }
}

/// A character a counted word keeps: an ASCII letter or digit, or any
/// character beyond ASCII.
pub open spec fn keep_char(c: char) -> bool {
    ('0' <= c <= '9') || ('a' <= c <= 'z') || ('A' <= c <= 'Z') || (c as u32) > 0x7F
}

/// The characters of `w` that a counted word keeps.
pub open spec fn kept(w: Seq<char>) -> Seq<char>
    decreases w.len(),
{
    if w.len() == 0 {
        w
    } else if keep_char(w.last()) {
        kept(w.drop_last()).push(w.last())
    } else {
        kept(w.drop_last())
    }
}

/// The counted form of a word: its kept characters, lowercased.
pub open spec fn word_key(w: Seq<char>) -> Seq<char> {
    lowercase(kept(w))
}

/// The counted forms of the words, leaving out empty ones.
pub open spec fn word_keys(ws: Seq<Seq<char>>) -> Seq<Seq<char>>
    decreases ws.len(),
{
    if ws.len() == 0 {
        seq![]
    } else {
        let r = word_keys(ws.drop_last());
        if word_key(ws.last()).len() > 0 {
            r.push(word_key(ws.last()))
        } else {
            r
        }
    }
}

/// Where `k` first stands in the tally, from `i` on; `-1` when it does not.
pub open spec fn key_index(t: Seq<(Seq<char>, nat)>, k: Seq<char>, i: int) -> int
    decreases t.len() - i,
{
    if i < 0 || i >= t.len() {
        -1
    } else if t[i].0 == k {
        i
    } else {
        key_index(t, k, i + 1)
    }
}

/// Each distinct key with its number of occurrences, in order of first
/// occurrence.
pub open spec fn tally(keys: Seq<Seq<char>>) -> Seq<(Seq<char>, nat)>
    decreases keys.len(),
{
    if keys.len() == 0 {
        seq![]
    } else {
        let t = tally(keys.drop_last());
        let k = keys.last();
        let i = key_index(t, k, 0);
        if i >= 0 {
            t.update(i, (k, t[i].1 + 1))
        } else {
            t.push((k, 1))
        }
    }
}

/// The first entry of `t[..n]` with the highest count.
pub open spec fn best_upto(t: Seq<(Seq<char>, nat)>, n: int) -> int
    decreases n,
{
    if n <= 1 {
        0
    } else {
        let b = best_upto(t, n - 1);
        if t[n - 1].1 > t[b].1 { n - 1 } else { b }
    }
}

/// The `n` entries with the highest counts, highest first; among equal
/// counts, the earlier entry first.
pub open spec fn top(t: Seq<(Seq<char>, nat)>, n: nat) -> Seq<(Seq<char>, nat)>
    decreases n,
{
    if n == 0 || t.len() == 0 {
        seq![]
    } else {
        let m = best_upto(t, t.len() as int);
        seq![t[m]] + top(t.remove(m), (n - 1) as nat)
    }
}

/// The entry `best_upto` picks has the highest count of the first `n`.
proof fn lemma_best_upto(t: Seq<(Seq<char>, nat)>, n: int)
    requires
        1 <= n <= t.len(),
    ensures
        0 <= best_upto(t, n) < n,
        forall|j: int| 0 <= j < n ==> (#[trigger] t[j]).1 <= t[best_upto(t, n)].1,
    decreases n,
{
    if n > 1 {
        lemma_best_upto(t, n - 1);
    }
}

/// Every entry of `top(t, n)` is an entry of `t`, and there are at most `n`.
proof fn lemma_top_from(t: Seq<(Seq<char>, nat)>, n: nat)
    ensures
        top(t, n).len() <= n,
        forall|i: int| 0 <= i < top(t, n).len() ==> t.contains(#[trigger] top(t, n)[i]),
    decreases n,
{
    if n > 0 && t.len() > 0 {
        let m = best_upto(t, t.len() as int);
        lemma_best_upto(t, t.len() as int);
        let rest = t.remove(m);
        lemma_top_from(rest, (n - 1) as nat);
        assert forall|i: int| 0 <= i < top(t, n).len() implies t.contains(#[trigger] top(t, n)[i]) by {
            if i == 0 {
                assert(top(t, n)[0] == t[m]);
            } else {
                assert(top(t, n)[i] == top(rest, (n - 1) as nat)[i - 1]);
                let e = top(rest, (n - 1) as nat)[i - 1];
                assert(rest.contains(e));
                let k = choose|k: int| 0 <= k < rest.len() && rest[k] == e;
                if k < m {
                    assert(t[k] == e);
                } else {
                    assert(t[k + 1] == e);
                }
            }
        }
    }
}

/// The list is ordered by count, highest first, and holds at most `n`
/// entries, all from the tally.
pub proof fn lemma_top_sorted(t: Seq<(Seq<char>, nat)>, n: nat)
    ensures
        top(t, n).len() <= n,
        forall|i: int| 0 <= i < top(t, n).len() ==> t.contains(#[trigger] top(t, n)[i]),
        forall|i: int, j: int| 0 <= i < j < top(t, n).len() ==> top(t, n)[i].1 >= top(t, n)[j].1,
    decreases n,
{
    lemma_top_from(t, n);
    if n > 0 && t.len() > 0 {
        let m = best_upto(t, t.len() as int);
        lemma_best_upto(t, t.len() as int);
        let rest = t.remove(m);
        lemma_top_sorted(rest, (n - 1) as nat);
        let r = top(rest, (n - 1) as nat);
        assert forall|i: int, j: int| 0 <= i < j < top(t, n).len() implies top(t, n)[i].1 >= top(t, n)[j].1 by {
            assert(top(t, n)[j] == r[j - 1]);
            if i == 0 {
                assert(rest.contains(r[j - 1]));
                let k = choose|k: int| 0 <= k < rest.len() && rest[k] == r[j - 1];
                if k < m {
                    assert(t[k] == r[j - 1]);
                } else {
                    assert(t[k + 1] == r[j - 1]);
                }
            } else {
                assert(top(t, n)[i] == r[i - 1]);
            }
        }
    }
}

/// The word frequency list is ordered by count, highest first, and holds at
/// most fifty words.
pub proof fn lemma_word_frequency_sorted(s: Seq<char>)
    ensures
        spec_word_frequency(s).len() <= MAX_FREQ,
        forall|i: int, j: int|
            0 <= i < j < spec_word_frequency(s).len() ==> spec_word_frequency(s)[i].1 >= spec_word_frequency(s)[j].1,
{
    lemma_top_sorted(tally(word_keys(words_of(s))), MAX_FREQ as nat);
}

/// The word frequency list of a text: at most fifty words with their
/// counts, most frequent first.
pub open spec fn spec_word_frequency(s: Seq<char>) -> Seq<(Seq<char>, nat)> {
    top(tally(word_keys(words_of(s))), MAX_FREQ as nat)
}

/// Entries as values.
pub open spec fn entries_view(v: Seq<(String, usize)>) -> Seq<(Seq<char>, nat)> {
    v.map_values(|e: (String, usize)| (e.0@, e.1 as nat))
}

/// The words of `text`, as `split_whitespace` gives them.
pub fn words_in(text: &str) -> (r: Vec<String>)
    ensures
        strings_view(r@) == words_of(text@),
{
    let cs = chars_of(text);
    let ghost s = text@;
    let mut r: Vec<String> = Vec::new();
    let mut i: usize = 0;
    while i < cs.len()
        invariant
            cs@ == s,
            i <= cs@.len(),
            strings_view(r@) == words_of(s.take(i as int)),
        decreases cs@.len() - i,
    {
        let c = cs[i];
        let ghost before = strings_view(r@);
        proof {
            assert(s.take(i + 1).drop_last() =~= s.take(i as int));
            assert(s.take(i + 1).last() == c);
            assert(word_start(s.take(i + 1), i as int) == word_start(s, i as int));
        }
        if !is_whitespace(c) {
            if i == 0 || is_whitespace(cs[i - 1]) {
                let mut w = String::new();
                push_char(&mut w, c);
                r.push(w);
                proof {
                    assert(strings_view(r@) =~= before.push(seq![c]));
                }
            } else {
                proof {
                    assert(i > 0 && !is_ws(s[i - 1]));
                    assert(s.take(i as int).drop_last() =~= s.take(i - 1));
                    assert(s.take(i as int).last() == s[i - 1]);
                    lemma_words_nonempty(s.take(i as int));
                    assert(before.len() > 0);
                }
                let mut w = r.pop().unwrap();
                push_char(&mut w, c);
                r.push(w);
                proof {
                    assert(strings_view(r@) =~= before.update(before.len() - 1, before.last().push(c)));
                }
            }
        }
        i += 1;
    }
    proof {
        assert(s.take(cs@.len() as int) =~= s);
    }
    r
}

/// The characters of `w` a counted word keeps.
fn kept_of(w: &str) -> (r: String)
    ensures
        r@ == kept(w@),
{
    let cs = chars_of(w);
    let mut r = String::new();
    let mut i: usize = 0;
    while i < cs.len()
        invariant
            cs@ == w@,
            i <= cs@.len(),
            r@ == kept(cs@.take(i as int)),
        decreases cs@.len() - i,
    {
        let c = cs[i];
        proof {
            assert(cs@.take(i + 1).drop_last() =~= cs@.take(i as int));
            assert(cs@.take(i + 1).last() == c);
        }
        if ('0' <= c && c <= '9') || ('a' <= c && c <= 'z') || ('A' <= c && c <= 'Z') || (c as u32) > 0x7F {
            push_char(&mut r, c);
        }
        i += 1;
    }
    proof {
        assert(cs@.take(cs@.len() as int) =~= cs@);
    }
    r
}

/// Where `k` first stands in the entries, if it does.
fn find_key(t: &Vec<(String, usize)>, k: &String) -> (r: Option<usize>)
    ensures
        match r {
            Some(i) => i < t@.len() && key_index(entries_view(t@), k@, 0) == i,
            None => key_index(entries_view(t@), k@, 0) == -1,
        },
{
    let ghost tv = entries_view(t@);
    let mut i: usize = 0;
    while i < t.len()
        invariant
            tv == entries_view(t@),
            i <= t@.len(),
            key_index(tv, k@, i as int) == key_index(tv, k@, 0),
        decreases t@.len() - i,
    {
        if t[i].0 == *k {
            return Some(i);
        }
        i += 1;
    }
    None
}

/// A text ending in a non-whitespace character has a word.
proof fn lemma_words_nonempty(s: Seq<char>)
    requires
        s.len() > 0,
        !is_ws(s.last()),
    ensures
        words_of(s).len() > 0,
    decreases s.len(),
{
    if !word_start(s, s.len() - 1) {
        assert(s.drop_last().last() == s[s.len() - 2]);
        lemma_words_nonempty(s.drop_last());
    }
}

/// Where a key is found in the tally, it stands there, and not before.
proof fn lemma_key_index(t: Seq<(Seq<char>, nat)>, k: Seq<char>, i: int)
    requires
        0 <= i,
    ensures
        key_index(t, k, i) == -1 || (i <= key_index(t, k, i) < t.len() && t[key_index(t, k, i)].0 == k),
        key_index(t, k, i) == -1 ==> forall|j: int| i <= j < t.len() ==> t[j].0 != k,
    decreases t.len() - i,
{
    if i < t.len() && t[i].0 != k {
        lemma_key_index(t, k, i + 1);
    }
}

/// Every count of the tally is at most the number of keys counted.
proof fn lemma_tally_counts(keys: Seq<Seq<char>>)
    ensures
        forall|j: int| 0 <= j < tally(keys).len() ==> #[trigger] tally(keys)[j].1 <= keys.len(),
        tally(keys).len() <= keys.len(),
    decreases keys.len(),
{
    if keys.len() > 0 {
        lemma_tally_counts(keys.drop_last());
        lemma_key_index(tally(keys.drop_last()), keys.last(), 0);
    }
}

/// The first entry with the highest count among the first `n`.
fn best_of(t: &Vec<(String, usize)>, n: usize) -> (m: usize)
    requires
        1 <= n <= t@.len(),
    ensures
        m == best_upto(entries_view(t@), n as int),
        m < n,
{
    let ghost tv = entries_view(t@);
    let mut b: usize = 0;
    let mut k: usize = 1;
    while k < n
        invariant
            tv == entries_view(t@),
            1 <= k <= n <= t@.len(),
            b == best_upto(tv, k as int),
            b < k,
        decreases n - k,
    {
        if t[k].1 > t[b].1 {
            b = k;
        }
        k += 1;
    }
    b
}

/// The word frequency list of `text`.
pub fn word_frequency_of(text: &str) -> (r: Vec<(String, usize)>)
    ensures
        entries_view(r@) == spec_word_frequency(text@),
{
    let words = words_in(text);
    let ghost ws = strings_view(words@);
    let mut t: Vec<(String, usize)> = Vec::new();
    let ghost mut keys: Seq<Seq<char>> = seq![];
    let mut i: usize = 0;
    proof {
        assert(ws.take(0) =~= Seq::<Seq<char>>::empty());
        assert(entries_view(t@) =~= Seq::<(Seq<char>, nat)>::empty());
    }
    while i < words.len()
        invariant
            ws == strings_view(words@),
            ws == words_of(text@),
            i <= words@.len(),
            keys == word_keys(ws.take(i as int)),
            entries_view(t@) == tally(keys),
            keys.len() <= i,
        decreases words@.len() - i,
    {
        let k = to_lower(kept_of(words[i].as_str()).as_str());
        proof {
            assert(ws.take(i + 1).drop_last() =~= ws.take(i as int));
            assert(ws.take(i + 1).last() == ws[i as int]);
            assert(k@ == word_key(ws[i as int]));
            lemma_tally_counts(keys);
            lemma_key_index(entries_view(t@), k@, 0);
        }
        if !k.as_str().is_empty() {
            let ghost tv = entries_view(t@);
            match find_key(&t, &k) {
                Some(j) => {
                    let (key, count) = t.remove(j);
                    t.insert(j, (key, count + 1));
                    proof {
                        assert(entries_view(t@) =~= tv.update(j as int, (k@, tv[j as int].1 + 1)));
                    }
                },
                None => {
                    t.push((k, 1));
                    proof {
                        assert(entries_view(t@) =~= tv.push((k@, 1nat)));
                    }
                },
            }
            proof {
                keys = keys.push(k@);
                assert(keys.drop_last() =~= word_keys(ws.take(i as int)));
            }
        }
        i += 1;
    }
    proof {
        assert(ws.take(words@.len() as int) =~= ws);
    }
    // pick the most frequent entries one by one
    let mut r: Vec<(String, usize)> = Vec::new();
    let ghost all = entries_view(t@);
    let mut n: usize = 0;
    proof {
        assert(entries_view(r@) + top(entries_view(t@), (MAX_FREQ - n) as nat) =~= top(all, MAX_FREQ as nat));
    }
    while n < MAX_FREQ && t.len() > 0
        invariant
            n <= MAX_FREQ,
            entries_view(r@) + top(entries_view(t@), (MAX_FREQ - n) as nat) == top(all, MAX_FREQ as nat),
        decreases MAX_FREQ - n,
    {
        let ghost tv = entries_view(t@);
        let ghost before = entries_view(r@);
        let m = best_of(&t, t.len());
        let e = t.remove(m);
        r.push(e);
        proof {
            assert(entries_view(t@) =~= tv.remove(m as int));
            assert(entries_view(r@) =~= before.push(tv[m as int]));
            assert(top(tv, (MAX_FREQ - n) as nat) == seq![tv[m as int]] + top(tv.remove(m as int), (MAX_FREQ - n - 1) as nat));
            assert(entries_view(r@) + top(entries_view(t@), (MAX_FREQ - (n + 1)) as nat) =~= before + top(tv, (MAX_FREQ - n) as nat));
        }
        n += 1;
    }
    proof {
        assert(top(entries_view(t@), (MAX_FREQ - n) as nat) =~= Seq::<(Seq<char>, nat)>::empty());
        assert(entries_view(r@) + Seq::<(Seq<char>, nat)>::empty() =~= entries_view(r@));
    }
    r
}

impl Writer {
    /// The word frequency list of the active tab: at most fifty words with
    /// their counts, most frequent first, ties in order of first use.
    pub fn word_frequency(&self) -> (r: Vec<(String, usize)>)
        requires
            self.wf(),
        ensures
            entries_view(r@) == spec_word_frequency(self.text_view()),
    {
        word_frequency_of(self.tabs[self.active].text.as_str())
    }
}

} // verus!
