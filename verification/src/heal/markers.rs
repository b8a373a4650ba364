//! Searching a text for the first of several markers, and telling which end of
//! a text could still grow into one.
use crate::text::{occurs_at, slice_chars, starts_at};
use vstd::prelude::*;

verus! {

/// The length of the first marker of `ts` that occurs in `t` at `i`; zero
/// where none does.
pub open spec fn tag_at(t: Seq<char>, i: int, ts: Seq<Seq<char>>) -> int
    decreases ts.len(),
{
    if ts.len() == 0 {
        0
    } else if starts_at(t, i, ts[0]) {
        ts[0].len() as int
    } else {
        tag_at(t, i, ts.drop_first())
    }
}

/// Position and length of the first marker of `ts` at or after `i`.
pub open spec fn first_marker(t: Seq<char>, i: int, ts: Seq<Seq<char>>) -> Option<(int, int)>
    decreases t.len() - i,
{
    if i < 0 || i >= t.len() {
        None
    } else if tag_at(t, i, ts) > 0 {
        Some((i, tag_at(t, i, ts)))
    } else {
        first_marker(t, i + 1, ts)
    }
}

/// Whether the last `n` characters of `t` are a proper prefix of `tag`.
pub open spec fn ends_in_prefix(t: Seq<char>, tag: Seq<char>, n: int) -> bool {
    &&& 0 < n < tag.len()
    &&& n <= t.len()
    &&& t.subrange(t.len() - n, t.len() as int) == tag.take(n)
}

/// Whether the last `n` characters of `t` could grow into a marker.
pub open spec fn could_grow(t: Seq<char>, ts: Seq<Seq<char>>, n: int) -> bool {
    exists|k: int| 0 <= k < ts.len() && ends_in_prefix(t, #[trigger] ts[k], n)
}

/// The largest `m <= n` for which the last `m` characters of `t` could grow
/// into a marker; zero where there is none.
pub open spec fn longest_growing(t: Seq<char>, ts: Seq<Seq<char>>, n: int) -> int
    decreases n,
{
    if n <= 0 {
        0
    } else if could_grow(t, ts, n) {
        n
    } else {
        longest_growing(t, ts, n - 1)
    }
}

/// How many characters at the end of `t` are withheld.
pub open spec fn withheld(t: Seq<char>, ts: Seq<Seq<char>>) -> int {
    longest_growing(t, ts, t.len() as int)
}

/// A character that starts a marker.
pub open spec fn opens_tag(c: char) -> bool {
    c == '<' || c == '◁'
}

/// Each marker starts with a character that it holds nowhere else, and no
/// marker is a prefix of another.
pub open spec fn well_marked(ts: Seq<Seq<char>>) -> bool {
    &&& forall|k: int| 0 <= k < ts.len() ==> (#[trigger] ts[k]).len() > 1 && opens_tag(ts[k][0])
    &&& forall|k: int, j: int|
        0 <= k < ts.len() && 1 <= j < ts[k].len() ==> !opens_tag(#[trigger] ts[k][j])
    &&& forall|k: int, l: int|
        0 <= k < ts.len() && 0 <= l < ts.len() && k != l ==> differs(
            #[trigger] ts[k],
            #[trigger] ts[l],
        )
}

/// Whether two texts differ at a position that both have.
pub open spec fn differs(a: Seq<char>, b: Seq<char>) -> bool {
    exists|j: int| 0 <= j < a.len() && j < b.len() && #[trigger] a[j] != b[j]
}

/// `tag_at` is the length of a marker that occurs, or zero where none does.
pub proof fn lemma_tag_at(t: Seq<char>, i: int, ts: Seq<Seq<char>>)
    requires
        forall|k: int| 0 <= k < ts.len() ==> (#[trigger] ts[k]).len() > 0,
    ensures
        tag_at(t, i, ts) > 0 ==> exists|k: int|
            0 <= k < ts.len() && starts_at(t, i, #[trigger] ts[k]) && ts[k].len() == tag_at(
                t,
                i,
                ts,
            ),
        tag_at(t, i, ts) <= 0 ==> forall|k: int|
            0 <= k < ts.len() ==> !starts_at(t, i, #[trigger] ts[k]),
    decreases ts.len(),
{
    if ts.len() > 0 && !starts_at(t, i, ts[0]) {
        let r = ts.drop_first();
        assert forall|k: int| 0 <= k < r.len() implies (#[trigger] r[k]).len() > 0 by {
            assert(r[k] == ts[k + 1]);
        }
        lemma_tag_at(t, i, r);
        if tag_at(t, i, ts) > 0 {
            let k = choose|k: int|
                0 <= k < r.len() && starts_at(t, i, #[trigger] r[k]) && r[k].len() == tag_at(
                    t,
                    i,
                    r,
                );
            assert(ts[k + 1] == r[k]);
        } else {
            assert forall|k: int| 0 <= k < ts.len() implies !starts_at(t, i, #[trigger] ts[k]) by {
                if k > 0 {
                    assert(ts[k] == r[k - 1]);
                }
            }
        }
    }
}

/// Where exactly one marker of the list occurs, `tag_at` is its length.
proof fn lemma_tag_at_is(t: Seq<char>, i: int, ts: Seq<Seq<char>>, k: int)
    requires
        0 <= k < ts.len(),
        starts_at(t, i, ts[k]),
        forall|l: int| 0 <= l < ts.len() && l != k ==> !starts_at(t, i, #[trigger] ts[l]),
    ensures
        tag_at(t, i, ts) == ts[k].len(),
    decreases ts.len(),
{
    if k > 0 {
        let r = ts.drop_first();
        assert(!starts_at(t, i, ts[0]));
        assert(r[k - 1] == ts[k]);
        assert forall|l: int| 0 <= l < r.len() && l != k - 1 implies !starts_at(
            t,
            i,
            #[trigger] r[l],
        ) by {
            assert(r[l] == ts[l + 1]);
        }
        lemma_tag_at_is(t, i, r, k - 1);
    }
}

/// Where no marker of the list occurs, `tag_at` is zero.
pub proof fn lemma_tag_at_none(t: Seq<char>, i: int, ts: Seq<Seq<char>>)
    requires
        forall|l: int| 0 <= l < ts.len() ==> !starts_at(t, i, #[trigger] ts[l]),
    ensures
        tag_at(t, i, ts) == 0,
    decreases ts.len(),
{
    if ts.len() > 0 {
        let r = ts.drop_first();
        assert(!starts_at(t, i, ts[0]));
        assert forall|l: int| 0 <= l < r.len() implies !starts_at(t, i, #[trigger] r[l]) by {
            assert(r[l] == ts[l + 1]);
        }
        lemma_tag_at_none(t, i, r);
    }
}

/// `first_marker` gives the first position where a marker occurs.
pub proof fn lemma_first_marker(t: Seq<char>, i: int, ts: Seq<Seq<char>>)
    requires
        0 <= i,
    ensures
        match first_marker(t, i, ts) {
            Some((at, n)) => {
                &&& i <= at < t.len()
                &&& 0 < n
                &&& at + n <= t.len()
                &&& n == tag_at(t, at, ts)
                &&& forall|j: int| i <= j < at ==> tag_at(t, j, ts) <= 0
            },
            None => forall|j: int| i <= j < t.len() ==> tag_at(t, j, ts) <= 0,
        },
    decreases t.len() - i,
{
    if i < t.len() {
        if tag_at(t, i, ts) <= 0 {
            lemma_first_marker(t, i + 1, ts);
        } else {
            lemma_tag_fits(t, i, ts);
        }
    }
}

proof fn lemma_tag_fits(t: Seq<char>, i: int, ts: Seq<Seq<char>>)
    requires
        tag_at(t, i, ts) > 0,
    ensures
        i + tag_at(t, i, ts) <= t.len(),
    decreases ts.len(),
{
    if ts.len() > 0 && !starts_at(t, i, ts[0]) {
        lemma_tag_fits(t, i, ts.drop_first());
    }
}

/// The first position where a marker occurs is the one that `first_marker` gives.
pub proof fn lemma_first_marker_is(t: Seq<char>, i: int, ts: Seq<Seq<char>>, at: int)
    requires
        0 <= i <= at < t.len(),
        tag_at(t, at, ts) > 0,
        forall|j: int| i <= j < at ==> tag_at(t, j, ts) <= 0,
    ensures
        first_marker(t, i, ts) == Some((at, tag_at(t, at, ts))),
    decreases at - i,
{
    if i < at {
        lemma_first_marker_is(t, i + 1, ts, at);
    }
}

/// Where no marker occurs, `first_marker` gives none.
pub proof fn lemma_no_marker(t: Seq<char>, i: int, ts: Seq<Seq<char>>)
    requires
        0 <= i,
        forall|j: int| i <= j < t.len() ==> tag_at(t, j, ts) <= 0,
    ensures
        first_marker(t, i, ts) is None,
    decreases t.len() - i,
{
    if i < t.len() {
        lemma_no_marker(t, i + 1, ts);
    }
}

/// `longest_growing` is the largest length that could grow.
pub proof fn lemma_longest_growing(t: Seq<char>, ts: Seq<Seq<char>>, n: int)
    requires
        0 <= n,
    ensures
        0 <= longest_growing(t, ts, n) <= n,
        longest_growing(t, ts, n) > 0 ==> could_grow(t, ts, longest_growing(t, ts, n)),
        forall|m: int| longest_growing(t, ts, n) < m <= n ==> !could_grow(t, ts, m),
    decreases n,
{
    if n > 0 && !could_grow(t, ts, n) {
        lemma_longest_growing(t, ts, n - 1);
    }
}

proof fn lemma_longest_growing_is(t: Seq<char>, ts: Seq<Seq<char>>, n: int, m: int)
    requires
        0 <= m <= n,
        m > 0 ==> could_grow(t, ts, m),
        forall|k: int| m < k <= n ==> !could_grow(t, ts, k),
    ensures
        longest_growing(t, ts, n) == m,
    decreases n,
{
    if n > m {
        lemma_longest_growing_is(t, ts, n - 1, m);
    }
}

/// The characters of a marker that occurs in a text.
pub proof fn lemma_starts_at_chars(t: Seq<char>, i: int, p: Seq<char>)
    requires
        starts_at(t, i, p),
    ensures
        forall|j: int| 0 <= j < p.len() ==> t[i + j] == #[trigger] p[j],
{
    assert forall|j: int| 0 <= j < p.len() implies t[i + j] == #[trigger] p[j] by {
        assert(t.subrange(i, i + p.len())[j] == t[i + j]);
    }
}

/// A marker that occurs within `x` occurs in `x + b` at the same place, and
/// the other way round.
pub proof fn lemma_starts_at_append(x: Seq<char>, b: Seq<char>, i: int, p: Seq<char>)
    requires
        0 <= i,
        i + p.len() <= x.len(),
    ensures
        starts_at(x, i, p) == starts_at(x + b, i, p),
{
    assert((x + b).subrange(i, i + p.len()) =~= x.subrange(i, i + p.len()));
}

/// The markers found in `x` are found in `x + b`.
pub proof fn lemma_marker_kept(x: Seq<char>, b: Seq<char>, ts: Seq<Seq<char>>)
    requires
        well_marked(ts),
        first_marker(x, 0, ts) is Some,
    ensures
        first_marker(x + b, 0, ts) == first_marker(x, 0, ts),
{
    lemma_first_marker(x, 0, ts);
    let (at, n) = first_marker(x, 0, ts)->0;
    let y = x + b;
    lemma_tag_at(x, at, ts);
    let k = choose|k: int|
        0 <= k < ts.len() && starts_at(x, at, #[trigger] ts[k]) && ts[k].len() == n;
    lemma_starts_at_chars(x, at, ts[k]);
    assert(x[at + 0] == ts[k][0]);
    lemma_starts_at_append(x, b, at, ts[k]);
    assert forall|l: int| 0 <= l < ts.len() && l != k implies !starts_at(y, at, #[trigger] ts[l]) by {
        if starts_at(y, at, ts[l]) {
            lemma_starts_at_chars(y, at, ts[l]);
            lemma_starts_at_chars(y, at, ts[k]);
            assert(differs(ts[k], ts[l]));
            let j = choose|j: int|
                0 <= j < ts[k].len() && j < ts[l].len() && #[trigger] ts[k][j] != ts[l][j];
            assert(y[at + j] == ts[k][j]);
            assert(y[at + j] == ts[l][j]);
        }
    }
    lemma_tag_at_is(y, at, ts, k);
    assert forall|i: int| 0 <= i < at implies tag_at(y, i, ts) <= 0 by {
        assert forall|l: int| 0 <= l < ts.len() implies !starts_at(y, i, #[trigger] ts[l]) by {
            if starts_at(y, i, ts[l]) {
                if i + ts[l].len() <= x.len() {
                    lemma_starts_at_append(x, b, i, ts[l]);
                    lemma_tag_at(x, i, ts);
                } else {
                    lemma_starts_at_chars(y, i, ts[l]);
                    assert(y[i + (at - i)] == ts[l][at - i]);
                    assert(y[at] == x[at]);
                }
            }
        }
        lemma_tag_at_none(y, i, ts);
    }
    lemma_first_marker_is(y, 0, ts, at);
}

/// What `x` would emit at once starts no marker of `x + b`.
proof fn lemma_emitted_starts_no_marker(x: Seq<char>, b: Seq<char>, ts: Seq<Seq<char>>, i: int)
    requires
        well_marked(ts),
        first_marker(x, 0, ts) is None,
        0 <= i < x.len() - withheld(x, ts),
    ensures
        tag_at(x + b, i, ts) <= 0,
{
    let y = x + b;
    lemma_first_marker(x, 0, ts);
    lemma_longest_growing(x, ts, x.len() as int);
    assert forall|l: int| 0 <= l < ts.len() implies !starts_at(y, i, #[trigger] ts[l]) by {
        if starts_at(y, i, ts[l]) {
            if i + ts[l].len() <= x.len() {
                lemma_starts_at_append(x, b, i, ts[l]);
                lemma_tag_at(x, i, ts);
            } else {
                let n = x.len() - i;
                lemma_starts_at_chars(y, i, ts[l]);
                assert(x.subrange(x.len() - n, x.len() as int) =~= ts[l].take(n)) by {
                    assert forall|j: int| 0 <= j < n implies #[trigger] x.subrange(
                        x.len() - n,
                        x.len() as int,
                    )[j] == ts[l].take(n)[j] by {
                        assert(y[i + j] == ts[l][j]);
                    }
                }
                assert(ends_in_prefix(x, ts[l], n));
                assert(could_grow(x, ts, n));
            }
        }
    }
    lemma_tag_at_none(y, i, ts);
}

/// Whether a marker occurs does not depend on what stands before.
pub proof fn lemma_tag_at_skip(y: Seq<char>, keep: int, i: int, ts: Seq<Seq<char>>)
    requires
        0 <= keep <= y.len(),
        0 <= i,
    ensures
        tag_at(y.skip(keep), i, ts) == tag_at(y, keep + i, ts),
    decreases ts.len(),
{
    if ts.len() > 0 {
        let z = y.skip(keep);
        if i + ts[0].len() <= z.len() {
            assert(z.subrange(i, i + ts[0].len()) =~= y.subrange(
                keep + i,
                keep + i + ts[0].len(),
            ));
        }
        assert(starts_at(z, i, ts[0]) == starts_at(y, keep + i, ts[0]));
        lemma_tag_at_skip(y, keep, i, ts.drop_first());
    }
}

/// The withheld end, followed by `b`, is scanned as `x + b` is.
pub proof fn lemma_withheld_enough(x: Seq<char>, b: Seq<char>, ts: Seq<Seq<char>>)
    requires
        well_marked(ts),
        first_marker(x, 0, ts) is None,
    ensures
        ({
            let keep = x.len() - withheld(x, ts);
            let z = x.skip(keep) + b;
            &&& 0 <= keep <= x.len()
            &&& match first_marker(z, 0, ts) {
                Some((at, n)) => first_marker(x + b, 0, ts) == Some((keep + at, n)),
                None => first_marker(x + b, 0, ts) is None && withheld(x + b, ts) == withheld(z, ts),
            }
        }),
{
    let y = x + b;
    lemma_longest_growing(x, ts, x.len() as int);
    let keep = x.len() - withheld(x, ts);
    let z = x.skip(keep) + b;
    assert(z =~= y.skip(keep));
    assert forall|i: int| 0 <= i < z.len() implies #[trigger] tag_at(z, i, ts) == tag_at(
        y,
        keep + i,
        ts,
    ) by {
        lemma_tag_at_skip(y, keep, i, ts);
    }
    assert forall|i: int| 0 <= i < keep implies tag_at(y, i, ts) <= 0 by {
        lemma_emitted_starts_no_marker(x, b, ts, i);
    }
    lemma_first_marker(z, 0, ts);
    match first_marker(z, 0, ts) {
        Some((at, n)) => {
            assert(tag_at(y, keep + at, ts) == n);
            assert forall|j: int| 0 <= j < keep + at implies tag_at(y, j, ts) <= 0 by {
                if j >= keep {
                    assert(tag_at(z, j - keep, ts) == tag_at(y, keep + (j - keep), ts));
                }
            }
            lemma_first_marker_is(y, 0, ts, keep + at);
        },
        None => {
            assert forall|j: int| 0 <= j < y.len() implies tag_at(y, j, ts) <= 0 by {
                if j >= keep {
                    assert(tag_at(z, j - keep, ts) == tag_at(y, keep + (j - keep), ts));
                }
            }
            lemma_no_marker(y, 0, ts);
            lemma_withheld_same(x, b, ts);
        },
    }
}

proof fn lemma_withheld_same(x: Seq<char>, b: Seq<char>, ts: Seq<Seq<char>>)
    ensures
        withheld(x + b, ts) == withheld(x.skip(x.len() - withheld(x, ts)) + b, ts),
{
    let y = x + b;
    lemma_longest_growing(x, ts, x.len() as int);
    let keep = x.len() - withheld(x, ts);
    let z = x.skip(keep) + b;
    assert(z =~= y.skip(keep));
    lemma_longest_growing(z, ts, z.len() as int);
    let m = withheld(z, ts);
    assert forall|n: int, l: int| 0 <= l < ts.len() && 0 < n <= z.len() implies ends_in_prefix(
        y,
        #[trigger] ts[l],
        n,
    ) == #[trigger] ends_in_prefix(z, ts[l], n) by {
        assert(y.subrange(y.len() - n, y.len() as int) =~= z.subrange(z.len() - n, z.len() as int));
    }
    if m > 0 {
        let l = choose|l: int| 0 <= l < ts.len() && ends_in_prefix(z, #[trigger] ts[l], m);
        assert(ends_in_prefix(y, ts[l], m) == ends_in_prefix(z, ts[l], m));
        assert(could_grow(y, ts, m));
    }
    assert forall|n: int| m < n <= y.len() implies !could_grow(y, ts, n) by {
        assert forall|l: int| 0 <= l < ts.len() implies !ends_in_prefix(y, #[trigger] ts[l], n) by {
            if ends_in_prefix(y, ts[l], n) {
                if n <= z.len() {
                    assert(ends_in_prefix(z, ts[l], n));
                    assert(could_grow(z, ts, n));
                } else {
                    let i = y.len() - n;
                    let q = x.len() - i;
                    assert forall|j: int| 0 <= j < q implies #[trigger] x.subrange(
                        x.len() - q,
                        x.len() as int,
                    )[j] == ts[l].take(q)[j] by {
                        assert(y.subrange(y.len() - n, y.len() as int)[j] == ts[l].take(n)[j]);
                    }
                    assert(x.subrange(x.len() - q, x.len() as int) =~= ts[l].take(q));
                    assert(ends_in_prefix(x, ts[l], q));
                    assert(could_grow(x, ts, q));
                }
            }
        }
    }
    lemma_longest_growing_is(y, ts, y.len() as int, m);
}

/// The texts of a list of character vectors.
pub open spec fn texts(list: Seq<Vec<char>>) -> Seq<Seq<char>> {
    Seq::new(list.len(), |k: int| list[k]@)
}

/// The length of the first marker of `list` that occurs in `text` at `i`; zero
/// where none does.
fn tag_len_at(text: &Vec<char>, i: usize, list: &Vec<Vec<char>>) -> (r: usize)
    ensures
        r == tag_at(text@, i as int, texts(list@)),
{
    let mut k: usize = 0;
    assert(texts(list@).skip(0) =~= texts(list@));
    while k < list.len()
        invariant
            k <= list@.len(),
            tag_at(text@, i as int, texts(list@)) == tag_at(
                text@,
                i as int,
                texts(list@).skip(k as int),
            ),
        decreases list@.len() - k,
    {
        assert(texts(list@).skip(k as int)[0] == list@[k as int]@);
        assert(texts(list@).skip(k as int).drop_first() =~= texts(list@).skip(k + 1));
        if occurs_at(text, i, &list[k]) {
            return list[k].len();
        }
        k = k + 1;
    }
    0
}

/// Position and length of the first marker of `list` in `text`.
pub fn find_marker(text: &Vec<char>, list: &Vec<Vec<char>>) -> (r: Option<(usize, usize)>)
    ensures
        match r {
            Some((at, n)) => first_marker(text@, 0, texts(list@)) == Some((at as int, n as int)),
            None => first_marker(text@, 0, texts(list@)) is None,
        },
{
    let mut i: usize = 0;
    while i < text.len()
        invariant
            i <= text@.len(),
            first_marker(text@, 0, texts(list@)) == first_marker(text@, i as int, texts(list@)),
        decreases text@.len() - i,
    {
        let n = tag_len_at(text, i, list);
        if n > 0 {
            return Some((i, n));
        }
        i = i + 1;
    }
    None
}

/// Whether the last `n` characters of `t` are a proper prefix of `tag`.
fn has_growing_end(t: &Vec<char>, tag: &Vec<char>, n: usize) -> (r: bool)
    ensures
        r == ends_in_prefix(t@, tag@, n as int),
{
    if n == 0 || n >= tag.len() || n > t.len() {
        return false;
    }
    let head = slice_chars(tag, 0, n);
    let start: usize = t.len() - n;
    assert(tag@.subrange(0, n as int) =~= tag@.take(n as int));
    occurs_at(t, start, &head)
}

/// The length of the longest end of `text` that is a proper prefix of a marker
/// of `list`.
pub fn longest_prefix_suffix(text: &Vec<char>, list: &Vec<Vec<char>>) -> (r: usize)
    ensures
        r == withheld(text@, texts(list@)),
        r <= text@.len(),
{
    let mut n: usize = text.len();
    while n > 0
        invariant
            n <= text@.len(),
            withheld(text@, texts(list@)) == longest_growing(text@, texts(list@), n as int),
        decreases n,
    {
        let mut k: usize = 0;
        while k < list.len()
            invariant
                0 < n <= text@.len(),
                k <= list@.len(),
                withheld(text@, texts(list@)) == longest_growing(text@, texts(list@), n as int),
                forall|l: int|
                    0 <= l < k ==> !ends_in_prefix(text@, #[trigger] texts(list@)[l], n as int),
            decreases list@.len() - k,
        {
            if has_growing_end(text, &list[k], n) {
                assert(ends_in_prefix(text@, texts(list@)[k as int], n as int));
                assert(could_grow(text@, texts(list@), n as int));
                return n;
            }
            k = k + 1;
        }
        assert(!could_grow(text@, texts(list@), n as int));
        n = n - 1;
    }
    0
}

} // verus!
