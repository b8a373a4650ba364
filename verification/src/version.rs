//! Codex versions, and what the doctor remembers of them.
use crate::text::{is_whitespace, is_ws, slice_string, to_chars};
use crate::wire::chat::opt_str;
use vstd::prelude::*;

verus! {

/// The outcome of the last run that drove Codex.
#[derive(Debug, Clone)]
pub struct LastRun {
    pub green: bool,
    pub codex_version: Option<String>,
    pub at_unix: u64,
    pub summary: String,
}

/// What the doctor remembers: the last version that passed, and its last run.
#[derive(Debug, Clone)]
pub struct DoctorState {
    pub last_green: Option<String>,
    pub last_run: Option<LastRun>,
}

impl Default for DoctorState {
    fn default() -> (r: DoctorState)
        ensures
            r.last_green is None,
            r.last_run is None,
    {
        DoctorState { last_green: None, last_run: None }
    }
}

pub open spec fn is_digit(c: char) -> bool {
    '0' <= c && c <= '9'
}

/// Whether a text holds a digit.
pub open spec fn has_digit(t: Seq<char>) -> bool {
    exists|i: int| 0 <= i < t.len() && is_digit(#[trigger] t[i])
}

/// The position of the first character that is no whitespace, from `i` on.
pub open spec fn word_start(t: Seq<char>, i: int) -> int
    decreases t.len() - i,
{
    if i >= t.len() || !is_ws(t[i]) {
        i
    } else {
        word_start(t, i + 1)
    }
}

/// The position of the first whitespace, from `i` on.
pub open spec fn word_end(t: Seq<char>, i: int) -> int
    decreases t.len() - i,
{
    if i >= t.len() || is_ws(t[i]) {
        i
    } else {
        word_end(t, i + 1)
    }
}

pub proof fn lemma_word_start(t: Seq<char>, i: int)
    requires
        0 <= i <= t.len(),
    ensures
        i <= word_start(t, i) <= t.len(),
        word_start(t, i) < t.len() ==> !is_ws(t[word_start(t, i)]),
    decreases t.len() - i,
{
    if i < t.len() && is_ws(t[i]) {
        lemma_word_start(t, i + 1);
    }
}

pub proof fn lemma_word_end(t: Seq<char>, i: int)
    requires
        0 <= i <= t.len(),
    ensures
        i <= word_end(t, i) <= t.len(),
        i < t.len() && !is_ws(t[i]) ==> i < word_end(t, i),
    decreases t.len() - i,
{
    if i < t.len() && !is_ws(t[i]) {
        lemma_word_end(t, i + 1);
    }
}

/// The first word with a digit in it, from `i` on.
pub open spec fn version_from(t: Seq<char>, i: int) -> Option<Seq<char>>
    decreases t.len() - i,
{
    if i < 0 || i > t.len() {
        None
    } else {
        let a = word_start(t, i);
        let b = word_end(t, a);
        proof {
            lemma_word_start(t, i);
            lemma_word_end(t, a);
        }
        if a >= t.len() {
            None
        } else if has_digit(t.subrange(a, b)) {
            Some(t.subrange(a, b))
        } else {
            version_from(t, b)
        }
    }
}

/// The version in a text: its first word with a digit in it.
pub open spec fn version_in(t: Seq<char>) -> Option<Seq<char>> {
    version_from(t, 0)
}

/// The version in an optional text.
pub open spec fn version_in_opt(t: Option<Seq<char>>) -> Option<Seq<char>> {
    match t {
        Some(x) => version_in(x),
        None => None,
    }
}

/// The version that the output of `codex --version` names: its first word with
/// a digit in it.
pub fn normalize_version(raw: &str) -> (r: Option<String>)
    ensures
        opt_str(r) == version_in(raw@),
{
    let chars = to_chars(raw);
    let ghost t = raw@;
    let mut i: usize = 0;
    while i < chars.len()
        invariant
            i <= chars@.len(),
            t == raw@,
            chars@ == t,
            version_in(t) == version_from(t, i as int),
        decreases chars@.len() - i,
    {
        let ghost from = i as int;
        let mut a: usize = i;
        while a < chars.len() && is_whitespace(chars[a])
            invariant
                from <= a <= chars@.len(),
                chars@ == t,
                word_start(t, from) == word_start(t, a as int),
            decreases chars@.len() - a,
        {
            a = a + 1;
        }
        if a >= chars.len() {
            return None;
        }
        let mut b: usize = a;
        let mut digit: bool = false;
        while b < chars.len() && !is_whitespace(chars[b])
            invariant
                a <= b <= chars@.len(),
                chars@ == t,
                word_end(t, a as int) == word_end(t, b as int),
                digit == (exists|k: int| a <= k < b && is_digit(#[trigger] t[k])),
            decreases chars@.len() - b,
        {
            let c = chars[b];
            if '0' <= c && c <= '9' {
                assert(is_digit(t[b as int]));
                digit = true;
            }
            b = b + 1;
        }
        proof {
            lemma_word_start(t, from);
            lemma_word_end(t, a as int);
            let word = t.subrange(a as int, b as int);
            if digit {
                let k = choose|k: int| a <= k < b && is_digit(#[trigger] t[k]);
                assert(is_digit(word[k - a]));
            }
            if has_digit(word) {
                let k = choose|k: int| 0 <= k < word.len() && is_digit(#[trigger] word[k]);
                assert(is_digit(t[a + k]));
            }
        }
        if digit {
            return Some(slice_string(&chars, a, b));
        }
        i = b;
    }
    None
}

} // verus!
