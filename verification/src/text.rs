//! Character-sequence helpers: searching, trimming and building strings.
use vstd::prelude::*;

verus! {

/// The texts of a list of strings.
pub open spec fn views(s: Seq<String>) -> Seq<Seq<char>> {
    Seq::new(s.len(), |i: int| s[i]@)
}

/// Appends one character to the end of the string (`String::push`).
pub assume_specification[ std::string::String::push ](s: &mut std::string::String, c: char)
    ensures
        final(s)@ == old(s)@.push(c),
;

/// Whether `p` occurs in `t` at position `i`.
pub open spec fn starts_at(t: Seq<char>, i: int, p: Seq<char>) -> bool {
    &&& 0 <= i
    &&& i + p.len() <= t.len()
    &&& t.subrange(i, i + p.len()) == p
}

/// The first position at or after `i` where `p` occurs in `t`.
pub open spec fn find_from(t: Seq<char>, i: int, p: Seq<char>) -> Option<int>
    decreases t.len() + 1 - i,
{
    if i < 0 || i > t.len() {
        None
    } else if starts_at(t, i, p) {
        Some(i)
    } else {
        find_from(t, i + 1, p)
    }
}

/// `find_from` gives a position exactly when it is the first occurrence, and
/// none exactly when there is no occurrence.
pub proof fn lemma_find_from(t: Seq<char>, i: int, p: Seq<char>)
    requires
        0 <= i,
    ensures
        match find_from(t, i, p) {
            Some(j) => i <= j && starts_at(t, j, p) && forall|k: int|
                i <= k < j ==> !starts_at(t, k, p),
            None => forall|k: int| i <= k ==> !starts_at(t, k, p),
        },
    decreases t.len() + 1 - i,
{
    if i <= t.len() && !starts_at(t, i, p) {
        lemma_find_from(t, i + 1, p);
    }
}

/// Whether a character has the Unicode `White_Space` property.
pub open spec fn is_ws(c: char) -> bool {
    let n = c as u32;
    ||| 9 <= n <= 13
    ||| n == 32
    ||| n == 0x85
    ||| n == 0xA0
    ||| n == 0x1680
    ||| 0x2000 <= n <= 0x200A
    ||| n == 0x2028
    ||| n == 0x2029
    ||| n == 0x202F
    ||| n == 0x205F
    ||| n == 0x3000
}

/// Whether `c` is white space.
pub fn is_whitespace(c: char) -> (r: bool)
    ensures
        r == is_ws(c),
{
    let n: u32 = c as u32;
    (9 <= n && n <= 13) || n == 32 || n == 0x85 || n == 0xA0 || n == 0x1680 || (0x2000 <= n && n
        <= 0x200A) || n == 0x2028 || n == 0x2029 || n == 0x202F || n == 0x205F || n == 0x3000
}

/// Whether a text is all white space.
pub open spec fn all_ws(t: Seq<char>) -> bool {
    forall|i: int| 0 <= i < t.len() ==> is_ws(#[trigger] t[i])
}

/// Whether `t[from..to]` is all white space.
pub fn is_blank(t: &Vec<char>, from: usize, to: usize) -> (r: bool)
    requires
        from <= to <= t@.len(),
    ensures
        r == all_ws(t@.subrange(from as int, to as int)),
{
    let mut i: usize = from;
    while i < to
        invariant
            from <= i <= to <= t@.len(),
            forall|k: int| from <= k < i ==> is_ws(#[trigger] t@[k]),
        decreases to - i,
    {
        if !is_whitespace(t[i]) {
            assert(t@.subrange(from as int, to as int)[i - from] == t@[i as int]);
            return false;
        }
        i = i + 1;
    }
    true
}

/// The characters of a string.
pub fn to_chars(s: &str) -> (r: Vec<char>)
    ensures
        r@ == s@,
{
    let mut out: Vec<char> = Vec::new();
    for c in it: s.chars()
        invariant
            it.seq() == s@,
            out@ == s@.take(it.index() as int),
    {
        out.push(c);
    }
    out
}

/// The string made of `t[from..to]`.
pub fn slice_string(t: &Vec<char>, from: usize, to: usize) -> (r: String)
    requires
        from <= to <= t@.len(),
    ensures
        r@ == t@.subrange(from as int, to as int),
{
    let mut out = String::new();
    let mut i: usize = from;
    while i < to
        invariant
            from <= i <= to <= t@.len(),
            out@ == t@.subrange(from as int, i as int),
        decreases to - i,
    {
        out.push(t[i]);
        i = i + 1;
    }
    out
}

/// The characters `t[from..to]`.
pub fn slice_chars(t: &Vec<char>, from: usize, to: usize) -> (r: Vec<char>)
    requires
        from <= to <= t@.len(),
    ensures
        r@ == t@.subrange(from as int, to as int),
{
    let mut out: Vec<char> = Vec::new();
    let mut i: usize = from;
    while i < to
        invariant
            from <= i <= to <= t@.len(),
            out@ == t@.subrange(from as int, i as int),
        decreases to - i,
    {
        out.push(t[i]);
        i = i + 1;
    }
    out
}

/// Whether `p` occurs in `t` at position `i`.
pub fn occurs_at(t: &Vec<char>, i: usize, p: &Vec<char>) -> (r: bool)
    ensures
        r == starts_at(t@, i as int, p@),
{
    if i > t.len() || p.len() > t.len() - i {
        return false;
    }
    let n: usize = t.len();
    let mut k: usize = 0;
    while k < p.len()
        invariant
            n == t@.len(),
            k <= p@.len(),
            i + p@.len() <= t@.len(),
            t@.subrange(i as int, i + k) == p@.take(k as int),
        decreases p@.len() - k,
    {
        if t[i + k] != p[k] {
            assert(t@.subrange(i as int, i + p@.len())[k as int] == t@[i + k]);
            return false;
        }
        assert(t@.subrange(i as int, i + k + 1) =~= t@.subrange(i as int, i + k).push(t@[i + k]));
        assert(p@.take(k + 1) =~= p@.take(k as int).push(p@[k as int]));
        k = k + 1;
    }
    assert(p@.take(k as int) =~= p@);
    true
}

/// The first position at or after `from` where `p` occurs in `t`.
pub fn find(t: &Vec<char>, from: usize, p: &Vec<char>) -> (r: Option<usize>)
    ensures
        match r {
            Some(j) => find_from(t@, from as int, p@) == Some(j as int),
            None => find_from(t@, from as int, p@) is None,
        },
{
    if from > t.len() {
        return None;
    }
    let mut i: usize = from;
    while i < t.len()
        invariant
            from <= i <= t@.len(),
            find_from(t@, from as int, p@) == find_from(t@, i as int, p@),
        decreases t@.len() - i,
    {
        if occurs_at(t, i, p) {
            return Some(i);
        }
        i = i + 1;
    }
    if occurs_at(t, i, p) {
        Some(i)
    } else {
        assert(find_from(t@, i + 1, p@) is None);
        None
    }
}

/// The characters of an optional string slice.
pub open spec fn opt_text(s: Option<&str>) -> Option<Seq<char>> {
    match s {
        Some(x) => Some(x@),
        None => None,
    }
}

/// Whether two strings hold the same characters.
pub fn same(a: &str, b: &str) -> (r: bool)
    ensures
        r == (a@ == b@),
{
    a.to_owned() == b.to_owned()
}

/// The concatenation of two strings.
pub fn concat2(a: &str, b: &str) -> (r: String)
    ensures
        r@ == a@ + b@,
{
    let mut out = a.to_owned();
    out.append(b);
    out
}

/// The concatenation of three strings.
pub fn concat3(a: &str, b: &str, c: &str) -> (r: String)
    ensures
        r@ == a@ + b@ + c@,
{
    let mut out = a.to_owned();
    out.append(b);
    out.append(c);
    out
}

/// The map that a list of pairs denotes; a later pair shadows an earlier one.
pub open spec fn pairs_map(s: Seq<(String, String)>) -> Map<Seq<char>, Seq<char>>
    decreases s.len(),
{
    if s.len() == 0 {
        Map::empty()
    } else {
        pairs_map(s.drop_last()).insert(s.last().0@, s.last().1@)
    }
}

pub proof fn lemma_pairs_push(s: Seq<(String, String)>, p: (String, String))
    ensures
        pairs_map(s.push(p)) == pairs_map(s).insert(p.0@, p.1@),
{
    assert(s.push(p).drop_last() =~= s);
}

/// The value of key `k` in a list of pairs.
pub fn pairs_get<'a>(pairs: &'a Vec<(String, String)>, k: &str) -> (r: Option<&'a String>)
    ensures
        match r {
            Some(v) => pairs_map(pairs@).dom().contains(k@) && pairs_map(pairs@)[k@] == v@,
            None => !pairs_map(pairs@).dom().contains(k@),
        },
{
    let mut i: usize = pairs.len();
    assert(pairs@.take(i as int) =~= pairs@);
    while i > 0
        invariant
            i <= pairs@.len(),
            pairs_map(pairs@.take(i as int)).dom().contains(k@) == pairs_map(
                pairs@,
            ).dom().contains(k@),
            pairs_map(pairs@.take(i as int)).dom().contains(k@) ==> pairs_map(
                pairs@.take(i as int),
            )[k@] == pairs_map(pairs@)[k@],
        decreases i,
    {
        i = i - 1;
        assert(pairs@.take(i + 1).drop_last() =~= pairs@.take(i as int));
        assert(pairs@.take(i + 1).last() == pairs@[i as int]);
        if same(pairs[i].0.as_str(), k) {
            return Some(&pairs[i].1);
        }
    }
    None
}

/// Whether a string is all white space.
pub fn is_blank_str(s: &str) -> (r: bool)
    ensures
        r == all_ws(s@),
{
    let chars = to_chars(s);
    assert(chars@.subrange(0, chars@.len() as int) =~= chars@);
    is_blank(&chars, 0, chars.len())
}

/// The ASCII lower-case form of a character.
pub open spec fn lower(c: char) -> char {
    if 'A' <= c && c <= 'Z' {
        (c as u8 + 32) as char
    } else {
        c
    }
}

/// The ASCII lower-case form of a text.
pub open spec fn lowered(t: Seq<char>) -> Seq<char> {
    Seq::new(t.len(), |i: int| lower(t[i]))
}

/// The ASCII lower-case form of a character.
pub fn to_lower(c: char) -> (r: char)
    ensures
        r == lower(c),
{
    if 'A' <= c && c <= 'Z' {
        let n: u8 = c as u8;
        (n + 32) as char
    } else {
        c
    }
}

/// The ASCII lower-case form of a string, as characters.
pub fn lower_chars(s: &str) -> (r: Vec<char>)
    ensures
        r@ == lowered(s@),
{
    let chars = to_chars(s);
    let mut out: Vec<char> = Vec::new();
    let mut i: usize = 0;
    while i < chars.len()
        invariant
            i <= chars@.len(),
            out@ == lowered(chars@).take(i as int),
        decreases chars@.len() - i,
    {
        out.push(to_lower(chars[i]));
        assert(lowered(chars@).take(i + 1) =~= lowered(chars@).take(i as int).push(
            lowered(chars@)[i as int],
        ));
        i = i + 1;
    }
    assert(lowered(chars@).take(i as int) =~= lowered(chars@));
    out
}

/// Whether two texts are equal but for the case of ASCII letters.
pub fn same_ignoring_case(a: &str, b: &str) -> (r: bool)
    ensures
        r == (lowered(a@) == lowered(b@)),
{
    let x = lower_chars(a);
    let y = lower_chars(b);
    if x.len() != y.len() {
        return false;
    }
    let r = occurs_at(&x, 0, &y);
    assert(x@.subrange(0, y@.len() as int) =~= x@);
    r
}

/// Whether a text holds `p`.
pub open spec fn holds(t: Seq<char>, p: Seq<char>) -> bool {
    find_from(t, 0, p) is Some
}

/// The decimal digit of a number below ten.
pub open spec fn digit(d: nat) -> char {
    if d == 0 {
        '0'
    } else if d == 1 {
        '1'
    } else if d == 2 {
        '2'
    } else if d == 3 {
        '3'
    } else if d == 4 {
        '4'
    } else if d == 5 {
        '5'
    } else if d == 6 {
        '6'
    } else if d == 7 {
        '7'
    } else if d == 8 {
        '8'
    } else {
        '9'
    }
}

/// A number in decimal.
pub open spec fn decimal(n: nat) -> Seq<char>
    decreases n,
{
    if n < 10 {
        seq![digit(n)]
    } else {
        decimal(n / 10).push(digit(n % 10))
    }
}

fn to_digit(d: u64) -> (r: char)
    requires
        d < 10,
    ensures
        r == digit(d as nat),
{
    match d {
        0 => '0',
        1 => '1',
        2 => '2',
        3 => '3',
        4 => '4',
        5 => '5',
        6 => '6',
        7 => '7',
        8 => '8',
        _ => '9',
    }
}

/// A number in decimal.
pub fn to_decimal(n: u64) -> (r: String)
    ensures
        r@ == decimal(n as nat),
    decreases n,
{
    if n < 10 {
        let mut out = String::new();
        out.push(to_digit(n));
        assert(out@ =~= seq![digit(n as nat)]);
        out
    } else {
        let mut out = to_decimal(n / 10);
        out.push(to_digit(n % 10));
        out
    }
}

/// Whether a text is in a list.
pub fn is_among(names: &Vec<String>, k: &str) -> (r: bool)
    ensures
        r == views(names@).contains(k@),
{
    let mut i: usize = 0;
    while i < names.len()
        invariant
            i <= names@.len(),
            forall|j: int| 0 <= j < i ==> (#[trigger] views(names@)[j]) != k@,
        decreases names@.len() - i,
    {
        if same(names[i].as_str(), k) {
            assert(views(names@)[i as int] == k@);
            return true;
        }
        i = i + 1;
    }
    false
}

/// Texts with a separator between each two.
pub open spec fn joined(l: Seq<Seq<char>>, sep: Seq<char>) -> Seq<char>
    decreases l.len(),
{
    if l.len() == 0 {
        Seq::empty()
    } else if l.len() == 1 {
        l[0]
    } else {
        joined(l.drop_last(), sep) + sep + l.last()
    }
}

/// Texts with a separator between each two.
pub fn join(l: &Vec<String>, sep: &str) -> (r: String)
    ensures
        r@ == joined(views(l@), sep@),
{
    let ghost all = views(l@);
    let mut out = String::new();
    let mut i: usize = 0;
    assert(all.take(0) =~= Seq::<Seq<char>>::empty());
    while i < l.len()
        invariant
            i <= l@.len(),
            all == views(l@),
            out@ == joined(all.take(i as int), sep@),
        decreases l@.len() - i,
    {
        if i > 0 {
            out.append(sep);
        }
        out.append(l[i].as_str());
        proof {
            let next = all.take(i + 1);
            assert(next.drop_last() =~= all.take(i as int));
            assert(next.last() == l@[i as int]@);
            if i == 0 {
                assert(out@ =~= next[0]);
            }
        }
        i = i + 1;
    }
    assert(all.take(all.len() as int) =~= all);
    out
}

/// The text without white space at its ends.
pub open spec fn trimmed(t: Seq<char>) -> Seq<char>
    decreases t.len(),
{
    if t.len() > 0 && is_ws(t[0]) {
        trimmed(t.drop_first())
    } else if t.len() > 0 && is_ws(t.last()) {
        trimmed(t.drop_last())
    } else {
        t
    }
}

/// The characters `t[from..to]` without white space at the ends.
pub fn trim_slice(t: &Vec<char>, from: usize, to: usize) -> (r: String)
    requires
        from <= to <= t@.len(),
    ensures
        r@ == trimmed(t@.subrange(from as int, to as int)),
{
    let mut a: usize = from;
    let mut b: usize = to;
    while a < b && is_whitespace(t[a])
        invariant
            from <= a <= b == to <= t@.len(),
            trimmed(t@.subrange(from as int, to as int)) == trimmed(
                t@.subrange(a as int, b as int),
            ),
        decreases b - a,
    {
        assert(t@.subrange(a as int, b as int).drop_first() =~= t@.subrange(a + 1, b as int));
        a = a + 1;
    }
    while a < b && is_whitespace(t[b - 1])
        invariant
            from <= a <= b <= to <= t@.len(),
            a < b ==> !is_ws(t@[a as int]),
            trimmed(t@.subrange(from as int, to as int)) == trimmed(
                t@.subrange(a as int, b as int),
            ),
        decreases b - a,
    {
        assert(t@.subrange(a as int, b as int).drop_last() =~= t@.subrange(a as int, b - 1));
        b = b - 1;
    }
    slice_string(t, a, b)
}

/// What `{:?}` prints of a string: the text in quotes, with escapes.
pub uninterp spec fn debug_text(t: Seq<char>) -> Seq<char>;

/// Prints a string through `str`'s `Debug`: the result depends on the text
/// alone and is named by [`debug_text`].
#[verifier::external_body]
pub(crate) fn quoted(s: &str) -> (r: String)
    ensures
        r@ == debug_text(s@),
{
    format!("{s:?}")
}

} // verus!
